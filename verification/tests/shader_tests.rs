//! Tests of the stock shader sources and the configuration records.

use piralib::settings::TextureSettings;
use piralib::stock_shader::StockShader;
use piralib::stock_shader_basic::StockShader as BasicStockShader;

#[test]
fn vertex_source_plain() {
    let sh = StockShader::new();
    assert_eq!(sh.get_vertex_string(), "#version 400\n        precision mediump float;\n\n        uniform mat4 uModelMatrix;\n        uniform mat4 uPerspectiveMatrix;\n        uniform mat4 uViewMatrix;\n\n\n        in vec3 inPosition;\n         // color_layout\n         // texture_layout\n\n        void main()\n        {  \n             // color_main\n             // texture_main\n            gl_Position = uPerspectiveMatrix * uViewMatrix * uModelMatrix * vec4(inPosition, 1.0); // position_main\n        }\n        ");
}

#[test]
fn vertex_source_color() {
    let mut sh = StockShader::new();
    let sh = sh.color();
    assert_eq!(sh.get_vertex_string(), "#version 400\n        precision mediump float;\n\n        uniform mat4 uModelMatrix;\n        uniform mat4 uPerspectiveMatrix;\n        uniform mat4 uViewMatrix;\n\n\n        in vec3 inPosition;\n        in vec4 inColor;\n            out vec4 vColor; // color_layout\n         // texture_layout\n\n        void main()\n        {  \n            vColor = inColor; // color_main\n             // texture_main\n            gl_Position = uPerspectiveMatrix * uViewMatrix * uModelMatrix * vec4(inPosition, 1.0); // position_main\n        }\n        ");
}

#[test]
fn vertex_source_texture() {
    let mut sh = StockShader::new();
    let sh = sh.texture(false);
    assert_eq!(sh.get_vertex_string(), "#version 400\n        precision mediump float;\n\n        uniform mat4 uModelMatrix;\n        uniform mat4 uPerspectiveMatrix;\n        uniform mat4 uViewMatrix;\n\n\n        in vec3 inPosition;\n         // color_layout\n        in vec2 inTexture;\n            out vec2 textureCoord; // texture_layout\n\n        void main()\n        {  \n             // color_main\n            textureCoord = inTexture; // texture_main\n            gl_Position = uPerspectiveMatrix * uViewMatrix * uModelMatrix * vec4(inPosition, 1.0); // position_main\n        }\n        ");
}

#[test]
fn vertex_source_color_texture() {
    let mut sh = StockShader::new();
    let mut sh = sh.color();
    let sh = sh.texture(true);
    assert_eq!(sh.get_vertex_string(), "#version 400\n        precision mediump float;\n\n        uniform mat4 uModelMatrix;\n        uniform mat4 uPerspectiveMatrix;\n        uniform mat4 uViewMatrix;\n\n\n        in vec3 inPosition;\n        in vec4 inColor;\n            out vec4 vColor; // color_layout\n        in vec2 inTexture;\n            out vec2 textureCoord; // texture_layout\n\n        void main()\n        {  \n            vColor = inColor; // color_main\n            textureCoord = inTexture; // texture_main\n            gl_Position = uPerspectiveMatrix * uViewMatrix * uModelMatrix * vec4(inPosition, 1.0); // position_main\n        }\n        ");
}

#[test]
fn frag_source_plain() {
    let sh = StockShader::new();
    assert_eq!(sh.get_frag_string(), "#version 400\n        precision mediump float;\n        \n        uniform vec4 uColor;\n\n         // sampler\n        in vec2 textureCoord; // in texture coords\n        in vec4 vColor; //in vec4 vertexColor;\n\n\n        out vec4 Color;\n        void main()\n        {\n            Color =   uColor;\n        }");
}

#[test]
fn frag_source_color() {
    let mut sh = StockShader::new();
    let sh = sh.color();
    assert_eq!(sh.get_frag_string(), "#version 400\n        precision mediump float;\n        \n        uniform vec4 uColor;\n\n         // sampler\n        in vec2 textureCoord; // in texture coords\n        in vec4 vColor; //in vec4 vertexColor;\n\n\n        out vec4 Color;\n        void main()\n        {\n            Color = vColor *   uColor;\n        }");
}

#[test]
fn frag_source_texture() {
    let mut sh = StockShader::new();
    let sh = sh.texture(false);
    assert_eq!(sh.get_frag_string(), "#version 400\n        precision mediump float;\n        \n        uniform vec4 uColor;\n\n        uniform sampler2D tex0; // sampler\n        in vec2 textureCoord; // in texture coords\n        in vec4 vColor; //in vec4 vertexColor;\n\n\n        out vec4 Color;\n        void main()\n        {\n            Color =  texture( tex0, textureCoord).rgba * uColor;\n        }");
}

#[test]
fn frag_source_texture_flipped() {
    let mut sh = StockShader::new();
    let sh = sh.texture(true);
    assert_eq!(sh.get_frag_string(), "#version 400\n        precision mediump float;\n        \n        uniform vec4 uColor;\n\n        uniform sampler2D tex0; // sampler\n        in vec2 textureCoord; // in texture coords\n        in vec4 vColor; //in vec4 vertexColor;\n\n\n        out vec4 Color;\n        void main()\n        {\n            Color =  texture( tex0, vec2(0.0,1.0) - (textureCoord * vec2(-1,1)) ).rgba * uColor;\n        }");
}

#[test]
fn frag_source_color_texture() {
    let mut sh = StockShader::new();
    let mut sh = sh.color();
    let sh = sh.texture(false);
    assert_eq!(sh.get_frag_string(), "#version 400\n        precision mediump float;\n        \n        uniform vec4 uColor;\n\n        uniform sampler2D tex0; // sampler\n        in vec2 textureCoord; // in texture coords\n        in vec4 vColor; //in vec4 vertexColor;\n\n\n        out vec4 Color;\n        void main()\n        {\n            Color = vColor *  texture( tex0, textureCoord).rgba * uColor;\n        }");
}

#[test]
fn stock_shader_names() {
    assert_eq!(StockShader::uniform_name_model_matrix(), "uModelMatrix");
    assert_eq!(StockShader::uniform_name_perspective_matrix(), "uPerspectiveMatrix");
    assert_eq!(StockShader::uniform_name_view_matrix(), "uViewMatrix");
    assert_eq!(StockShader::uniform_name_texture_sampler0(), "tex0");
    assert_eq!(StockShader::uniform_name_color(), "uColor");
    assert_eq!(StockShader::attrib_name_position(), "inPosition");
    assert_eq!(StockShader::attrib_name_color(), "inColor");
    assert_eq!(StockShader::attrib_name_texture_coords(), "inTexture");
}

#[test]
fn basic_vertex_source_plain() {
    let sh = BasicStockShader::new();
    let (_, v) = sh.build_vertex_string();
    assert_eq!(v, "\n            #version 330\n\n            uniform mat4 modelMatrix;\n            uniform mat4 perspectiveMatrix;\n            uniform mat4 viewMatrix;\n\n            layout (location = 0) in vec3 Position;\n            \n            \n\n        \n            void main()\n            {\n                gl_Position = perspectiveMatrix * viewMatrix * modelMatrix * vec4(Position, 1.0);\n                \n                \n            }\n            ");
}

#[test]
fn basic_vertex_source_color_texture() {
    let mut sh = BasicStockShader::new();
    let mut sh = sh.color();
    let sh = sh.texture();
    let (_, v) = sh.build_vertex_string();
    assert_eq!(v, "\n            #version 330\n\n            uniform mat4 modelMatrix;\n            uniform mat4 perspectiveMatrix;\n            uniform mat4 viewMatrix;\n\n            layout (location = 0) in vec3 Position;\n            layout (location = 1) in vec4 Color;\n            out vec4 vertexColor;\n            layout (location = 2) in vec2 TextureCoords;\n            out vec2 textureCoord;\n\n        \n            void main()\n            {\n                gl_Position = perspectiveMatrix * viewMatrix * modelMatrix * vec4(Position, 1.0);\n                vertexColor = Color;\n                textureCoord = TextureCoords;\n            }\n            ");
}

#[test]
fn basic_frag_source_plain() {
    let sh = BasicStockShader::new();
    let (_, f) = sh.build_frag_string();
    assert_eq!(f, "\n            #version 330\n\n            uniform vec4 uColor;\n\n             // sampler\n             // in texture coords\n\n             //in vec4 vertexColor;\n\n\n            out vec4 Color;\n            void main()\n            {\n                //vec4(textureCoord.x, textureCoord.y, 0, 1.0); //\n                Color =     uColor;\n            }");
}

#[test]
fn basic_frag_source_color() {
    let mut sh = BasicStockShader::new();
    let sh = sh.color();
    let (_, f) = sh.build_frag_string();
    assert_eq!(f, "\n            #version 330\n\n            uniform vec4 uColor;\n\n             // sampler\n             // in texture coords\n\n            in vec4 vertexColor; //in vec4 vertexColor;\n\n\n            out vec4 Color;\n            void main()\n            {\n                //vec4(textureCoord.x, textureCoord.y, 0, 1.0); //\n                Color =   vertexColor *   uColor;\n            }");
}

#[test]
fn basic_frag_source_texture() {
    let mut sh = BasicStockShader::new();
    let sh = sh.texture();
    let (_, f) = sh.build_frag_string();
    assert_eq!(f, "\n            #version 330\n\n            uniform vec4 uColor;\n\n            uniform sampler2D tex0; // sampler\n            in vec2 textureCoord; // in texture coords\n\n             //in vec4 vertexColor;\n\n\n            out vec4 Color;\n            void main()\n            {\n                //vec4(textureCoord.x, textureCoord.y, 0, 1.0); //\n                Color =    texture( tex0, textureCoord).rgba * uColor;\n            }");
}

#[test]
fn texture_settings_default_values() {
    let t = TextureSettings::default();
    assert_eq!(t.target, 0x0DE1);
    assert_eq!(t.data_type, 0x1401);
    assert_eq!(t.internal_format, 0x8058);
    assert_eq!(t.format, 0x1908);
    assert_eq!(t.mag_filter, 0x2601);
    assert_eq!(t.min_filter, 0x2601);
    assert_eq!(t.wrap_s, 0x2901);
    assert_eq!(t.wrap_r, 0x2901);
}
