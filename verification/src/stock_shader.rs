//! The stock shader: builds the GLSL vertex and fragment sources that
//! the render helpers compile, with optional per-vertex color and texture
//! sampling.  The uniform and attribute names below are the contract
//! between these sources and the code that sets uniforms on the program.

use vstd::prelude::*;

verus! {

use vstd::string::StringExecFns;

/// Configuration of the stock shader: whether vertices carry a color, and
/// whether a texture is sampled (and flipped vertically).
#[derive(Debug, Clone, Copy)]
pub struct StockShader {
    texture: (bool, bool),
    color: bool,
}

impl StockShader {
    /// Whether the shader passes a per-vertex color through.
    pub closed spec fn spec_color(&self) -> bool {
        self.color
    }

    /// Whether the fragment shader samples a texture.
    pub closed spec fn spec_texture(&self) -> bool {
        self.texture.0
    }

    /// Whether the sampled texture is flipped vertically.
    pub closed spec fn spec_flipped(&self) -> bool {
        self.texture.1
    }

    /// A stock shader with no color attribute and no texture.
    pub fn new() -> (r: StockShader)
        ensures
            !r.spec_color(),
            !r.spec_texture(),
            !r.spec_flipped(),
    {
        StockShader { texture: (false, false), color: false }
    }

    /// Enable the per-vertex color attribute; returns the updated value.
    pub fn color(&mut self) -> (r: StockShader)
        ensures
            final(self).spec_color(),
            final(self).spec_texture() == old(self).spec_texture(),
            final(self).spec_flipped() == old(self).spec_flipped(),
            r == *final(self),
    {
        self.color = true;
        self.clone()
    }

    /// Enable texture sampling, flipped vertically if `flipped`; returns
    /// the updated value.
    pub fn texture(&mut self, flipped: bool) -> (r: StockShader)
        ensures
            final(self).spec_texture(),
            final(self).spec_flipped() == flipped,
            final(self).spec_color() == old(self).spec_color(),
            r == *final(self),
    {
        self.texture = (true, flipped);
        self.clone()
    }

    /// The vertex shader source for this configuration.
    pub fn get_vertex_string(&self) -> (r: String)
        ensures
            r@ == vertex_source(self.spec_color(), self.spec_texture()),
    {
        let mut s = String::new();
        s.append("#version 400\n        precision mediump float;\n\n        uniform mat4 uModelMatrix;\n        uniform mat4 uPerspectiveMatrix;\n        uniform mat4 uViewMatrix;\n\n\n        in vec3 inPosition;\n        ");
        if self.color {
            s.append("in vec4 inColor;\n            out vec4 vColor;");
        }
        s.append(" // color_layout\n        ");
        if self.texture.0 {
            s.append("in vec2 inTexture;\n            out vec2 textureCoord;");
        }
        s.append(" // texture_layout\n\n        void main()\n        {  \n            ");
        if self.color {
            s.append("vColor = inColor;");
        }
        s.append(" // color_main\n            ");
        if self.texture.0 {
            s.append("textureCoord = inTexture;");
        }
        s.append(" // texture_main\n            gl_Position = uPerspectiveMatrix * uViewMatrix * uModelMatrix * vec4(inPosition, 1.0); // position_main\n        }\n        ");
        proof {
            assert(s@ =~= vertex_source(self.spec_color(), self.spec_texture()));
        }
        s
    }

    /// The fragment shader source for this configuration.
    pub fn get_frag_string(&self) -> (r: String)
        ensures
            r@ == frag_source(self.spec_color(), self.spec_texture(), self.spec_flipped()),
    {
        let mut s = String::new();
        s.append("#version 400\n        precision mediump float;\n        \n        uniform vec4 uColor;\n\n        ");
        if self.texture.0 {
            s.append("uniform sampler2D tex0;");
        }
        s.append(" // sampler\n        in vec2 textureCoord; // in texture coords\n        in vec4 vColor; //in vec4 vertexColor;\n\n\n        out vec4 Color;\n        void main()\n        {\n            Color = ");
        if self.color {
            s.append("vColor * ");
        }
        s.append(" ");
        if self.texture.0 {
            if !self.texture.1 {
                s.append("texture( tex0, textureCoord).rgba *");
            } else {
                s.append("texture( tex0, vec2(0.0,1.0) - (textureCoord * vec2(-1,1)) ).rgba *");
            }
        }
        s.append(" uColor;\n        }");
        proof {
            assert(s@ =~= frag_source(self.spec_color(), self.spec_texture(), self.spec_flipped()));
        }
        s
    }

    /// Name of the model matrix uniform in the stock shader sources.
    pub fn uniform_name_model_matrix() -> (r: &'static str)
        ensures
            r@ == "uModelMatrix"@,
    {
        "uModelMatrix"
    }

    /// Name of the perspective matrix uniform.
    pub fn uniform_name_perspective_matrix() -> (r: &'static str)
        ensures
            r@ == "uPerspectiveMatrix"@,
    {
        "uPerspectiveMatrix"
    }

    /// Name of the view matrix uniform.
    pub fn uniform_name_view_matrix() -> (r: &'static str)
        ensures
            r@ == "uViewMatrix"@,
    {
        "uViewMatrix"
    }

    /// Name of the first texture sampler uniform.
    pub fn uniform_name_texture_sampler0() -> (r: &'static str)
        ensures
            r@ == "tex0"@,
    {
        "tex0"
    }

    /// Name of the flat color uniform.
    pub fn uniform_name_color() -> (r: &'static str)
        ensures
            r@ == "uColor"@,
    {
        "uColor"
    }

    /// Name of the position vertex attribute.
    pub fn attrib_name_position() -> (r: &'static str)
        ensures
            r@ == "inPosition"@,
    {
        "inPosition"
    }

    /// Name of the color vertex attribute.
    pub fn attrib_name_color() -> (r: &'static str)
        ensures
            r@ == "inColor"@,
    {
        "inColor"
    }

    /// Name of the texture-coordinate vertex attribute.
    pub fn attrib_name_texture_coords() -> (r: &'static str)
        ensures
            r@ == "inTexture"@,
    {
        "inTexture"
    }
}

/// The vertex shader source: fixed scaffolding around the optional color
/// and texture attribute declarations and pass-throughs.
pub open spec fn vertex_source(color: bool, texture: bool) -> Seq<char> {
    "#version 400\n        precision mediump float;\n\n        uniform mat4 uModelMatrix;\n        uniform mat4 uPerspectiveMatrix;\n        uniform mat4 uViewMatrix;\n\n\n        in vec3 inPosition;\n        "@ + (if color { "in vec4 inColor;\n            out vec4 vColor;"@ } else { Seq::<char>::empty() }) + " // color_layout\n        "@ + (if texture {
        "in vec2 inTexture;\n            out vec2 textureCoord;"@
    } else {
        Seq::<char>::empty()
    }) + " // texture_layout\n\n        void main()\n        {  \n            "@ + (if color { "vColor = inColor;"@ } else { Seq::<char>::empty() }) + " // color_main\n            "@ + (if texture {
        "textureCoord = inTexture;"@
    } else {
        Seq::<char>::empty()
    }) + " // texture_main\n            gl_Position = uPerspectiveMatrix * uViewMatrix * uModelMatrix * vec4(inPosition, 1.0); // position_main\n        }\n        "@
}

/// The fragment shader source: fixed scaffolding around the optional
/// sampler declaration and the blend of vertex color, texture sample and
/// flat color.
pub open spec fn frag_source(color: bool, texture: bool, flipped: bool) -> Seq<char> {
    "#version 400\n        precision mediump float;\n        \n        uniform vec4 uColor;\n\n        "@ + (if texture { "uniform sampler2D tex0;"@ } else { Seq::<char>::empty() }) + " // sampler\n        in vec2 textureCoord; // in texture coords\n        in vec4 vColor; //in vec4 vertexColor;\n\n\n        out vec4 Color;\n        void main()\n        {\n            Color = "@ + (if color {
        "vColor * "@
    } else {
        Seq::<char>::empty()
    }) + " "@ + (if texture {
        if !flipped {
            "texture( tex0, textureCoord).rgba *"@
        } else {
            "texture( tex0, vec2(0.0,1.0) - (textureCoord * vec2(-1,1)) ).rgba *"@
        }
    } else {
        Seq::<char>::empty()
    }) + " uColor;\n        }"@
}

} // verus!
