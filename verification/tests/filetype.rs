use deviltool::types::DDFiletype;

#[test]
fn codes_map_to_named_types() {
    assert_eq!(DDFiletype::new(0x20), DDFiletype::WavAudio);
    assert_eq!(DDFiletype::new(0x80), DDFiletype::ShaderText);
    assert_eq!(DDFiletype::new(0x10), DDFiletype::GLSL);
    assert_eq!(DDFiletype::new(0x01), DDFiletype::Texture1);
    assert_eq!(DDFiletype::new(0x02), DDFiletype::Texture2);
    assert_eq!(DDFiletype::new(0x11), DDFiletype::FolderMarker);
}

#[test]
fn other_codes_are_kept_as_unknown() {
    assert_eq!(DDFiletype::new(0), DDFiletype::Unknown(0));
    assert_eq!(DDFiletype::new(0x1F), DDFiletype::Unknown(0x1F));
    assert_eq!(DDFiletype::new(0xFFFF), DDFiletype::Unknown(0xFFFF));
}

#[test]
fn code_of_each_type() {
    assert_eq!(DDFiletype::WavAudio.to_u16(), 0x20);
    assert_eq!(DDFiletype::ShaderText.to_u16(), 0x80);
    assert_eq!(DDFiletype::GLSL.to_u16(), 0x10);
    assert_eq!(DDFiletype::Texture1.to_u16(), 0x01);
    assert_eq!(DDFiletype::Texture2.to_u16(), 0x02);
    assert_eq!(DDFiletype::FolderMarker.to_u16(), 0x11);
    assert_eq!(DDFiletype::Unknown(0x1234).to_u16(), 0x1234);
}

#[test]
fn every_code_reads_back_to_itself() {
    let mut code: u32 = 0;
    while code <= 0xFFFF {
        assert_eq!(DDFiletype::new(code as u16).to_u16(), code as u16);
        code += 1;
    }
}

#[test]
fn extensions_of_named_types() {
    assert_eq!(DDFiletype::WavAudio.extension(), "wav");
    assert_eq!(DDFiletype::ShaderText.extension(), "shadercfg");
    assert_eq!(DDFiletype::GLSL.extension(), "dd_glsl");
    assert_eq!(DDFiletype::Texture1.extension(), "dd_tex1");
    assert_eq!(DDFiletype::Texture2.extension(), "dd_tex2");
    assert_eq!(DDFiletype::FolderMarker.extension(), "foldermarker");
}

#[test]
fn extension_of_unknown_type_is_its_code_in_hex() {
    assert_eq!(DDFiletype::Unknown(0x1F).extension(), "dd_0x1F");
    assert_eq!(DDFiletype::Unknown(0).extension(), "dd_0x0");
    assert_eq!(DDFiletype::Unknown(0xA).extension(), "dd_0xA");
    assert_eq!(DDFiletype::Unknown(0x100).extension(), "dd_0x100");
    assert_eq!(DDFiletype::Unknown(0xABCD).extension(), "dd_0xABCD");
    assert_eq!(DDFiletype::Unknown(0xFFFF).extension(), "dd_0xFFFF");
}

#[test]
fn unknown_extension_agrees_with_std_formatting() {
    let mut code: u32 = 0;
    while code <= 0xFFFF {
        let t = DDFiletype::Unknown(code as u16);
        assert_eq!(t.extension(), format!("dd_{:#X}", code));
        assert_eq!(t.describe(), format!("unknown ({:#X})", code));
        code += 1;
    }
}

#[test]
fn extension_inference_finds_the_six_named_types() {
    assert_eq!(DDFiletype::from_extension("wav"), Some(DDFiletype::WavAudio));
    assert_eq!(DDFiletype::from_extension("shadercfg"), Some(DDFiletype::ShaderText));
    assert_eq!(DDFiletype::from_extension("dd_glsl"), Some(DDFiletype::GLSL));
    assert_eq!(DDFiletype::from_extension("dd_tex1"), Some(DDFiletype::Texture1));
    assert_eq!(DDFiletype::from_extension("dd_tex2"), Some(DDFiletype::Texture2));
    assert_eq!(DDFiletype::from_extension("foldermarker"), Some(DDFiletype::FolderMarker));
}

#[test]
fn extension_inference_undoes_extension() {
    let named = [
        DDFiletype::WavAudio,
        DDFiletype::ShaderText,
        DDFiletype::GLSL,
        DDFiletype::Texture1,
        DDFiletype::Texture2,
        DDFiletype::FolderMarker,
    ];
    for t in named {
        assert_eq!(DDFiletype::from_extension(&t.extension()), Some(t));
    }
}

#[test]
fn extension_inference_has_no_answer_for_other_strings() {
    assert_eq!(DDFiletype::from_extension("png"), None);
    assert_eq!(DDFiletype::from_extension(".png"), None);
    assert_eq!(DDFiletype::from_extension(""), None);
    assert_eq!(DDFiletype::from_extension("WAV"), None);
    assert_eq!(DDFiletype::from_extension("wav "), None);
    assert_eq!(DDFiletype::from_extension("dd_tex3"), None);
    assert_eq!(DDFiletype::from_extension("dd_0x1F"), None);
    assert_eq!(DDFiletype::from_extension(&DDFiletype::Unknown(0x20).extension()), None);
}

#[test]
fn unknown_is_told_apart() {
    assert!(DDFiletype::Unknown(7).is_unknown());
    assert!(!DDFiletype::WavAudio.is_unknown());
    assert!(!DDFiletype::FolderMarker.is_unknown());
}

#[test]
fn descriptions() {
    assert_eq!(DDFiletype::WavAudio.describe(), "wav audio");
    assert_eq!(DDFiletype::ShaderText.describe(), "shader text file");
    assert_eq!(DDFiletype::GLSL.describe(), "glsl vert+frag shader");
    assert_eq!(DDFiletype::Texture1.describe(), "texture or something 1");
    assert_eq!(DDFiletype::Texture2.describe(), "texture or something 2");
    assert_eq!(DDFiletype::FolderMarker.describe(), "folder marker probably");
    assert_eq!(DDFiletype::Unknown(0x1F).describe(), "unknown (0x1F)");
}
