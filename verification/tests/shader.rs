use scene_viewer::shader::{compile_shaders, get_shader_kind, ShaderError, ShaderFile, ShaderKind};

fn file(path: &str) -> ShaderFile {
    let file_name = path.rsplit('/').next().unwrap().to_string();
    let extension = file_name.rsplit_once('.').map(|(_, extension)| extension.to_string());
    ShaderFile { path: path.to_string(), file_name, extension }
}

#[test]
fn shader_kind_follows_the_extension() {
    assert_eq!(get_shader_kind(&"frag".to_string()), Some(ShaderKind::Fragment));
    assert_eq!(get_shader_kind(&"vert".to_string()), Some(ShaderKind::Vertex));
    assert_eq!(get_shader_kind(&"spv".to_string()), None);
    assert_eq!(get_shader_kind(&"glsl".to_string()), None);
    assert_eq!(get_shader_kind(&"".to_string()), None);
}

#[test]
fn sources_are_compiled_and_binaries_left_alone() {
    let files = vec![
        file("src/shader/shader.vert"),
        file("src/shader/spv/shader.vert.spv"),
        file("src/shader/shader.frag"),
        file("src/shader/debug/line.frag"),
        file("src/shader/spv/line.frag.spv"),
    ];
    let jobs = compile_shaders(&files).unwrap();
    let planned: Vec<(&str, &str, ShaderKind)> =
        jobs.iter().map(|job| (job.source.as_str(), job.output.as_str(), job.kind)).collect();
    assert_eq!(
        planned,
        vec![
            ("src/shader/shader.vert", "src/shader/spv/shader.vert.spv", ShaderKind::Vertex),
            ("src/shader/shader.frag", "src/shader/spv/shader.frag.spv", ShaderKind::Fragment),
            ("src/shader/debug/line.frag", "src/shader/spv/line.frag.spv", ShaderKind::Fragment),
        ]
    );
    assert!(compile_shaders(&vec![]).unwrap().is_empty());
}

#[test]
fn unknown_extension_stops_the_plan() {
    let files = vec![
        file("src/shader/shader.vert"),
        file("src/shader/notes.txt"),
        file("src/shader/README"),
    ];
    assert_eq!(compile_shaders(&files).unwrap_err(), ShaderError::UnsupportedExtension { file: 1 });
    let files = vec![file("src/shader/spv/a.spv"), file("src/shader/README")];
    assert_eq!(compile_shaders(&files).unwrap_err(), ShaderError::UnsupportedExtension { file: 1 });
}
