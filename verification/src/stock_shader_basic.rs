//! A simpler stock shader with fixed attribute locations (GLSL 330):
//! builds vertex and fragment sources with optional per-vertex color and
//! texture sampling, and hands back the configuration alongside the text.

use vstd::prelude::*;

verus! {

use vstd::string::StringExecFns;

/// Configuration of the fixed-location stock shader.
#[derive(Debug, Clone, Copy)]
pub struct StockShader {
    texture: bool,
    color: bool,
}

impl StockShader {
    /// Whether vertices carry a color.
    pub closed spec fn spec_color(&self) -> bool {
        self.color
    }

    /// Whether a texture is sampled.
    pub closed spec fn spec_texture(&self) -> bool {
        self.texture
    }

    /// A stock shader with no color attribute and no texture.
    pub fn new() -> (r: StockShader)
        ensures
            !r.spec_color(),
            !r.spec_texture(),
    {
        StockShader { texture: false, color: false }
    }

    /// Enable the per-vertex color attribute; returns the updated value.
    pub fn color(&mut self) -> (r: StockShader)
        ensures
            final(self).spec_color(),
            final(self).spec_texture() == old(self).spec_texture(),
            r == *final(self),
    {
        self.color = true;
        self.clone()
    }

    /// Enable texture sampling; returns the updated value.
    pub fn texture(&mut self) -> (r: StockShader)
        ensures
            final(self).spec_texture(),
            final(self).spec_color() == old(self).spec_color(),
            r == *final(self),
    {
        self.texture = true;
        self.clone()
    }

    /// The vertex shader source for this configuration, with the
    /// configuration it was built from.
    pub fn build_vertex_string(&self) -> (r: (StockShader, String))
        ensures
            r.0 == *self,
            r.1@ == basic_vertex_source(self.spec_color(), self.spec_texture()),
    {
        let mut s = String::new();
        s.append("\n            #version 330\n\n            uniform mat4 modelMatrix;\n            uniform mat4 perspectiveMatrix;\n            uniform mat4 viewMatrix;\n\n            layout (location = 0) in vec3 Position;\n            ");
        if self.color {
            s.append("layout (location = 1) in vec4 Color;\n            out vec4 vertexColor;");
        }
        s.append("\n            ");
        if self.texture {
            s.append("layout (location = 2) in vec2 TextureCoords;\n            out vec2 textureCoord;");
        }
        s.append("\n\n        \n            void main()\n            {\n                gl_Position = perspectiveMatrix * viewMatrix * modelMatrix * vec4(Position, 1.0);\n                ");
        if self.color {
            s.append("vertexColor = Color;");
        }
        s.append("\n                ");
        if self.texture {
            s.append("textureCoord = TextureCoords;");
        }
        s.append("\n            }\n            ");
        proof {
            assert(s@ =~= basic_vertex_source(self.spec_color(), self.spec_texture()));
        }
        (self.clone(), s)
    }

    /// The fragment shader source for this configuration, with the
    /// configuration it was built from.
    pub fn build_frag_string(&self) -> (r: (StockShader, String))
        ensures
            r.0 == *self,
            r.1@ == basic_frag_source(self.spec_color(), self.spec_texture()),
    {
        let mut s = String::new();
        s.append("\n            #version 330\n\n            uniform vec4 uColor;\n\n            ");
        if self.texture {
            s.append("uniform sampler2D tex0;");
        }
        s.append(" // sampler\n            ");
        if self.texture {
            s.append("in vec2 textureCoord;");
        }
        s.append(" // in texture coords\n\n            ");
        if self.color {
            s.append("in vec4 vertexColor;");
        }
        s.append(" //in vec4 vertexColor;\n\n\n            out vec4 Color;\n            void main()\n            {\n                //vec4(textureCoord.x, textureCoord.y, 0, 1.0); //\n                Color =   ");
        if self.color {
            s.append("vertexColor * ");
        }
        s.append(" ");
        if self.texture {
            s.append("texture( tex0, textureCoord).rgba *");
        }
        s.append(" uColor;\n            }");
        proof {
            assert(s@ =~= basic_frag_source(self.spec_color(), self.spec_texture()));
        }
        (self.clone(), s)
    }
}

/// The fixed-location vertex shader source.
pub open spec fn basic_vertex_source(color: bool, texture: bool) -> Seq<char> {
    "\n            #version 330\n\n            uniform mat4 modelMatrix;\n            uniform mat4 perspectiveMatrix;\n            uniform mat4 viewMatrix;\n\n            layout (location = 0) in vec3 Position;\n            "@ + (if color { "layout (location = 1) in vec4 Color;\n            out vec4 vertexColor;"@ } else { Seq::<char>::empty() }) + "\n            "@ + (if texture {
        "layout (location = 2) in vec2 TextureCoords;\n            out vec2 textureCoord;"@
    } else {
        Seq::<char>::empty()
    }) + "\n\n        \n            void main()\n            {\n                gl_Position = perspectiveMatrix * viewMatrix * modelMatrix * vec4(Position, 1.0);\n                "@ + (if color { "vertexColor = Color;"@ } else { Seq::<char>::empty() }) + "\n                "@
        + (if texture {
        "textureCoord = TextureCoords;"@
    } else {
        Seq::<char>::empty()
    }) + "\n            }\n            "@
}

/// The fixed-location fragment shader source.
pub open spec fn basic_frag_source(color: bool, texture: bool) -> Seq<char> {
    "\n            #version 330\n\n            uniform vec4 uColor;\n\n            "@ + (if texture { "uniform sampler2D tex0;"@ } else { Seq::<char>::empty() }) + " // sampler\n            "@
        + (if texture {
        "in vec2 textureCoord;"@
    } else {
        Seq::<char>::empty()
    }) + " // in texture coords\n\n            "@ + (if color { "in vec4 vertexColor;"@ } else { Seq::<char>::empty() }) + " //in vec4 vertexColor;\n\n\n            out vec4 Color;\n            void main()\n            {\n                //vec4(textureCoord.x, textureCoord.y, 0, 1.0); //\n                Color =   "@
        + (if color {
        "vertexColor * "@
    } else {
        Seq::<char>::empty()
    }) + " "@ + (if texture {
        "texture( tex0, textureCoord).rgba *"@
    } else {
        Seq::<char>::empty()
    }) + " uColor;\n            }"@
}

} // verus!
