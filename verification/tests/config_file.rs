use suono::color::Color;
use suono::config::{
    parse_config_file, Config, GraphicConfig, GraphicPosition, GraphicShape, GraphicStyle,
    GraphicType, Orientation,
};

fn rgb(r: u8, g: u8, b: u8) -> Color {
    Color { r, g, b, a: 255 }
}

#[test]
fn empty_file_gives_defaults() {
    let (config, unknown) = parse_config_file(String::new());
    assert_eq!(config.sample_count, 200);
    assert_eq!(config.sample_interpolation_scalar, None);
    assert_eq!(config.background_color, rgb(17, 17, 26));
    assert_eq!(config.background_image, None);
    assert!(config.graphics.is_empty());
    assert!(unknown.is_empty());
}

#[test]
fn global_section_of_readme() {
    let file = "[global]\n\
                background_color = 11711A                      # Color annotated in Hex format without the \"#\"\n\
                background_image = /home/USER/path/to/img.png  # Use absolute paths, not relative ones\n\
                sample_count = 200                             # Dictates how many frequencies a Spectrogram samples\n\
                sample_interpolation_scalar = 0.75             # Adjusts the delay effect of Spectrograms\n\
                timeline_length = 400                          # Sets the amount of samples the Timeline shows\n\
                line_width = 1.8                               # Sets the thickness of lines\n\
                gain = 1.0                                     # Adjusts audio gain\n";
    let (config, unknown) = parse_config_file(file.to_string());
    assert!(unknown.is_empty());
    assert_eq!(config.background_color, rgb(0x11, 0x71, 0x1a));
    assert_eq!(config.background_image.as_deref(), Some("/home/USER/path/to/img.png"));
    assert_eq!(config.sample_count, 200);
    assert_eq!(config.sample_interpolation_scalar.as_deref(), Some("0.75"));
    assert_eq!(config.timeline_length, 400);
    assert_eq!(config.line_width.as_deref(), Some("1.8"));
    assert_eq!(config.gain.as_deref(), Some("1.0"));
}

#[test]
fn readme_global_settings() {
    let mut c = Config::default();
    assert_eq!(c.timeline_length, 400);
    assert_eq!(c.line_width, None);
    assert_eq!(c.gain, None);
    assert!(c.modify_parameter("gain", "2.0").is_none());
    assert_eq!(c.gain.as_deref(), Some("2.0"));
    assert!(c.modify_parameter("timeline_length", "128").is_none());
    assert_eq!(c.timeline_length, 128);
    c.modify_parameter("timeline_length", "long");
    assert_eq!(c.timeline_length, 400);
    assert!(c.modify_parameter("LINE_WIDTH", " 3.5 ").is_none());
    assert_eq!(c.line_width.as_deref(), Some("3.5"));
}

#[test]
fn trailing_comments_are_dropped() {
    let mut c = Config::default();
    c.modify_parameter("background_image", "/pics/a#b.png # the picture");
    assert_eq!(c.background_image.as_deref(), Some("/pics/a#b.png"));
    c.modify_parameter("sample_count", "64\t# samples");
    assert_eq!(c.sample_count, 64);
    c.modify_parameter("gain", "# nothing");
    assert_eq!(c.gain.as_deref(), Some(""));
    let mut g = GraphicConfig::default();
    g.modify_parameter("color_scheme", "[112233, 445566] # two colours");
    assert_eq!(g.color_scheme.colors, vec![rgb(0x11, 0x22, 0x33), rgb(0x44, 0x55, 0x66)]);
    let u = c.modify_parameter("frame_rate", "60 # per second").expect("unknown");
    assert_eq!(u.value, "60");
}

#[test]
fn ignored_lines_anywhere_in_the_file() {
    let base = "sample_count = 5\n[graphic]\ntype = waveform\nbogus = 1\n";
    let (c0, u0) = parse_config_file(base.to_string());
    let lines: Vec<&str> = base.split_inclusive('\n').collect();
    for insert in ["# comment = 3", "", "x", "#[graphic]"] {
        for at in 0..=lines.len() {
            let mut file = String::new();
            for (i, l) in lines.iter().enumerate() {
                if i == at {
                    file.push_str(insert);
                    file.push('\n');
                }
                file.push_str(l);
            }
            if at == lines.len() {
                file.push_str(insert);
                file.push('\n');
            }
            let (c, u) = parse_config_file(file.clone());
            assert_eq!(c.sample_count, c0.sample_count, "{:?}", file);
            assert_eq!(c.graphics.len(), c0.graphics.len(), "{:?}", file);
            assert_eq!(c.graphics[0].graphics_type, c0.graphics[0].graphics_type);
            assert_eq!(u.len(), u0.len());
            assert_eq!(u[0].parameter, u0[0].parameter);
        }
    }
}

#[test]
fn graphic_section_of_readme() {
    let file = "[graphic]\n\
                type = spectrogram\n\
                position = full\n\
                background_color = none\n\
                style = lines\n\
                color_scheme = [02A797, 865991, CB2080]\n\
                color_blend = true\n";
    let (config, unknown) = parse_config_file(file.to_string());
    assert!(unknown.is_empty());
    assert_eq!(config.graphics.len(), 1);
    let g = &config.graphics[0];
    assert_eq!(g.graphics_type, GraphicType::Spectrogram);
    assert_eq!(g.position, GraphicPosition::Full);
    assert_eq!(g.background_color, Color { r: 0, g: 0, b: 0, a: 0 });
    assert_eq!(g.style, GraphicStyle::Lines);
    assert_eq!(
        g.color_scheme.colors,
        vec![rgb(0x02, 0xa7, 0x97), rgb(0x86, 0x59, 0x91), rgb(0xcb, 0x20, 0x80)]
    );
    assert!(g.color_scheme.blend);
    assert!(!g.color_scheme.glow);
    assert_eq!(g.shape, GraphicShape::Line);
}

#[test]
fn each_graphic_header_opens_an_element() {
    let file = "sample_count = 64\n[graphic]\ntype = waveform\n[graphic]\n[graphic]\nposition = left\n";
    let (config, _) = parse_config_file(file.to_string());
    assert_eq!(config.sample_count, 64);
    assert_eq!(config.graphics.len(), 3);
    assert_eq!(config.graphics[0].graphics_type, GraphicType::Waveform);
    assert_eq!(config.graphics[1].graphics_type, GraphicType::Timeline);
    assert_eq!(config.graphics[2].position, GraphicPosition::Left);
}

#[test]
fn header_in_either_spelling() {
    let (config, _) = parse_config_file("[Graphic]\ntype = waveform\n".to_string());
    assert_eq!(config.graphics.len(), 1);
    assert_eq!(config.graphics[0].graphics_type, GraphicType::Waveform);
    let (config, _) = parse_config_file("[graphic]\n[Graphic]\n".to_string());
    assert_eq!(config.graphics.len(), 2);
    let (config, _) = parse_config_file("[GRAPHIC]\nsample_count = 3\n".to_string());
    assert!(config.graphics.is_empty());
    assert_eq!(config.sample_count, 3);
}

#[test]
fn type_names_as_documented() {
    let mut g = GraphicConfig::default();
    for (name, t) in [
        ("Spectrogram", GraphicType::Spectrogram),
        ("Waveform", GraphicType::Waveform),
        ("Timeline", GraphicType::Timeline),
        ("spectrogram", GraphicType::Spectrogram),
        ("waveform", GraphicType::Waveform),
        ("timeline", GraphicType::Timeline),
        ("SPECTROGRAM", GraphicType::Timeline),
    ] {
        g.modify_parameter("type", name);
        assert_eq!(g.graphics_type, t, "{}", name);
    }
}

#[test]
fn comments_and_short_lines_are_skipped() {
    let file = "# sample_count = 5\nx\n\nsample_count = 9\n#[graphic]\n";
    let (config, unknown) = parse_config_file(file.to_string());
    assert_eq!(config.sample_count, 9);
    assert!(config.graphics.is_empty());
    assert!(unknown.is_empty());
}

#[test]
fn windows_line_endings() {
    let (config, _) = parse_config_file("sample_count = 12\r\n[graphic]\r\nstyle = dots\r\n".to_string());
    assert_eq!(config.sample_count, 12);
    assert_eq!(config.graphics[0].style, GraphicStyle::Dots);
}

#[test]
fn later_setting_wins() {
    let (config, _) = parse_config_file("sample_count = 5\nsample_count = 6\n".to_string());
    assert_eq!(config.sample_count, 6);
    let mut g = GraphicConfig::default();
    g.modify_parameter("style", "dots");
    g.modify_parameter("style", "graph");
    assert_eq!(g.style, GraphicStyle::Graph);
}

#[test]
fn parameter_names_ignore_case_and_spaces() {
    let mut c = Config::default();
    assert!(c.modify_parameter("  SAMPLE_Count ", " 321 ").is_none());
    assert_eq!(c.sample_count, 321);
    let mut g = GraphicConfig::default();
    assert!(g.modify_parameter("Type", "waveform").is_none());
    assert_eq!(g.graphics_type, GraphicType::Waveform);
}

#[test]
fn values_are_case_sensitive() {
    let mut g = GraphicConfig::default();
    g.modify_parameter("position", "Left");
    assert_eq!(g.position, GraphicPosition::Full);
    g.modify_parameter("style", "DOTS");
    assert_eq!(g.style, GraphicStyle::Lines);
}

#[test]
fn sample_count_reading() {
    let mut c = Config::default();
    c.modify_parameter("sample_count", "+17");
    assert_eq!(c.sample_count, 17);
    c.modify_parameter("sample_count", "-17");
    assert_eq!(c.sample_count, 200);
    c.modify_parameter("sample_count", "0x10");
    assert_eq!(c.sample_count, 200);
    c.modify_parameter("sample_count", "007");
    assert_eq!(c.sample_count, 7);
    c.modify_parameter("sample_count", "99999999999999999999999999");
    assert_eq!(c.sample_count, 200);
    c.modify_parameter("sample_count", "+");
    assert_eq!(c.sample_count, 200);
}

#[test]
fn sample_count_matches_std_parse() {
    for text in ["0", "1", "+1", "-0", "", " 1", "12a", "18446744073709551615", "18446744073709551616", "٣"] {
        let mut c = Config::default();
        c.modify_parameter("sample_count", text);
        let expected = text.trim().parse::<usize>().unwrap_or(200);
        assert_eq!(c.sample_count, expected, "value {:?}", text);
    }
}

#[test]
fn global_background_color() {
    let mut c = Config::default();
    c.modify_parameter("background_color", "ff8800");
    assert_eq!(c.background_color, rgb(255, 0x88, 0));
    c.modify_parameter("background_color", "nope");
    assert_eq!(c.background_color, rgb(0, 0, 0));
}

#[test]
fn graphic_background_color() {
    let mut g = GraphicConfig::default();
    g.modify_parameter("background_color", "none");
    assert_eq!(g.background_color, Color { r: 0, g: 0, b: 0, a: 0 });
    g.modify_parameter("background_color", "102030");
    assert_eq!(g.background_color, rgb(0x10, 0x20, 0x30));
    g.modify_parameter("background_color", "xyz");
    assert_eq!(g.background_color, rgb(255, 255, 255));
}

#[test]
fn enumerated_values() {
    let mut g = GraphicConfig::default();
    let positions = [
        ("full", GraphicPosition::Full),
        ("top", GraphicPosition::Top),
        ("bottom", GraphicPosition::Bottom),
        ("left", GraphicPosition::Left),
        ("right", GraphicPosition::Right),
        ("topleft", GraphicPosition::TopLeft),
        ("topright", GraphicPosition::TopRight),
        ("bottomleft", GraphicPosition::BottomLeft),
        ("bottomright", GraphicPosition::BottomRight),
        ("middle", GraphicPosition::Full),
    ];
    for (name, p) in positions {
        g.modify_parameter("position", name);
        assert_eq!(g.position, p);
    }
    g.modify_parameter("shape", "circle");
    assert_eq!(g.shape, GraphicShape::Circle);
    g.modify_parameter("shape", "square");
    assert_eq!(g.shape, GraphicShape::Line);
    for (name, s) in [
        ("lines", GraphicStyle::Lines),
        ("graph", GraphicStyle::Graph),
        ("dots", GraphicStyle::Dots),
        ("dots_single", GraphicStyle::DotsSingle),
        ("bars", GraphicStyle::Lines),
    ] {
        g.modify_parameter("style", name);
        assert_eq!(g.style, s);
    }
    for (name, t) in [
        ("spectrogram", GraphicType::Spectrogram),
        ("waveform", GraphicType::Waveform),
        ("timeline", GraphicType::Timeline),
        ("oscilloscope", GraphicType::Timeline),
    ] {
        g.modify_parameter("type", name);
        assert_eq!(g.graphics_type, t);
    }
    g.modify_parameter("color_blend", "false");
    assert!(!g.color_scheme.blend);
    g.modify_parameter("color_blend", "true");
    assert!(g.color_scheme.blend);
    g.modify_parameter("color_blend", "yes");
    assert!(!g.color_scheme.blend);
    g.modify_parameter("color_glow", "true");
    assert!(g.color_scheme.glow);
    g.modify_parameter("color_glow", "TRUE");
    assert!(!g.color_scheme.glow);
}

#[test]
fn color_scheme_values() {
    let mut g = GraphicConfig::default();
    let turquoise = rgb(0x40, 0xe0, 0xd0);
    g.modify_parameter("color_scheme", "[112233]");
    assert_eq!(g.color_scheme.colors, vec![rgb(0x11, 0x22, 0x33)]);
    g.modify_parameter("color_scheme", "[[112233, zz]]");
    assert_eq!(g.color_scheme.colors, vec![rgb(0x11, 0x22, 0x33), turquoise]);
    g.modify_parameter("color_scheme", "112233,445566");
    assert_eq!(g.color_scheme.colors, vec![turquoise]);
    g.modify_parameter("color_scheme", "[]");
    assert_eq!(g.color_scheme.colors, vec![turquoise]);
    g.modify_parameter("color_scheme", "[aa0000, , bb0000]");
    assert_eq!(g.color_scheme.colors, vec![rgb(0xaa, 0, 0), turquoise, rgb(0xbb, 0, 0)]);
}

#[test]
fn default_graphic() {
    let g = GraphicConfig::default();
    assert_eq!(g.graphics_type, GraphicType::Timeline);
    assert_eq!(g.background_color, rgb(17, 17, 26));
    assert_eq!(g.position, GraphicPosition::Full);
    assert_eq!(g.shape, GraphicShape::Line);
    assert_eq!(g.style, GraphicStyle::Graph);
    assert_eq!(g.color_scheme.colors, vec![rgb(204, 47, 0), rgb(70, 90, 178), rgb(0, 118, 104)]);
    assert_eq!(g.color_scheme.orientation, Orientation::Horizintal);
    assert!(g.color_scheme.blend);
    assert!(!g.color_scheme.glow);
}

#[test]
fn unknown_settings_are_reported() {
    let mut c = Config::default();
    let u = c.modify_parameter(" Frame_Rate ", " 1.8 ").expect("unknown");
    assert_eq!(u.parameter, "frame_rate");
    assert_eq!(u.value, "1.8");
    let mut g = GraphicConfig::default();
    assert!(g.modify_parameter("sample_count", "4").is_some());
    assert!(c.modify_parameter("position", "left").is_some());
}

#[test]
fn settings_split_at_first_separator() {
    let (config, _) =
        parse_config_file("background_image = /a = b.png\n".to_string());
    assert_eq!(config.background_image.as_deref(), Some("/a = b.png"));
    let (config, unknown) = parse_config_file("sample_count=5\n".to_string());
    assert_eq!(config.sample_count, 200);
    assert!(unknown.is_empty());
}

#[test]
fn header_line_may_hold_a_setting() {
    let (config, unknown) = parse_config_file("[graphic] style = dots\n".to_string());
    assert_eq!(config.graphics.len(), 1);
    assert_eq!(config.graphics[0].style, GraphicStyle::Graph);
    assert_eq!(unknown[0].parameter, "[graphic] style");
    let (config, unknown) = parse_config_file("[graphic] = x\n".to_string());
    assert_eq!(config.graphics.len(), 1);
    assert_eq!(unknown.len(), 1);
    assert_eq!(unknown[0].parameter, "[graphic]");
}

#[test]
fn one_non_ascii_character_is_a_line() {
    // One character of two bytes in UTF-8 is read, so it opens nothing but is not skipped either.
    let (config, unknown) = parse_config_file("é\nsample_count = 2\n".to_string());
    assert_eq!(config.sample_count, 2);
    assert!(unknown.is_empty());
}

#[test]
fn parameter_trimming_matches_std() {
    for code in 0u32..0x3100 {
        if let Some(c) = char::from_u32(code) {
            let parameter = format!("{}sample_count{}", c, c);
            let mut config = Config::default();
            config.modify_parameter(&parameter, "5");
            let expected = if parameter.trim().to_lowercase() == "sample_count" { 5 } else { 200 };
            assert_eq!(config.sample_count, expected, "character U+{:04X}", code);
        }
    }
}

#[test]
fn graphic_count_follows_std_lines() {
    let files = [
        "[graphic]\n[graphic]",
        "[graphic]\r\n\r\n[graphic]\r",
        "\n\n[graphic]\n\n",
        "# [graphic]\n [graphic]\n",
        "a[graphic]b\nx\n[graphic]",
        "[graphic]\n\r\n[graphic]\r\n",
        "[Graphic]\nx[Graphic]y\n[GRAPHIC]\n",
    ];
    for file in files {
        let expected = file
            .lines()
            .filter(|l| l.len() > 1)
            .filter(|l| l.chars().next() != Some('#'))
            .filter(|l| l.contains("[graphic]") || l.contains("[Graphic]"))
            .count();
        let (config, _) = parse_config_file(file.to_string());
        assert_eq!(config.graphics.len(), expected, "file {:?}", file);
    }
}

#[test]
fn ignored_lines_with_carriage_returns_and_after_the_last_line() {
    let base = "sample_count = 5\n[graphic]\ntype = waveform\nbogus = 1";
    let (c0, u0) = parse_config_file(base.to_string());
    let variants = [
        format!("# comment\r\n{}", base),
        format!("sample_count = 5\n#x\r\n[graphic]\ntype = waveform\nbogus = 1"),
        format!("{}\n# trailing", base),
        format!("{}\n# trailing\n", base),
        format!("{}\n#x\r\n", base),
        format!("{}\n", base),
        format!("{}\nx", base),
        format!("{}\r\n# after a carriage return", base),
    ];
    for file in variants.iter() {
        let (c, u) = parse_config_file(file.clone());
        assert_eq!(c.sample_count, c0.sample_count, "{:?}", file);
        assert_eq!(c.graphics.len(), c0.graphics.len(), "{:?}", file);
        assert_eq!(c.graphics[0].graphics_type, c0.graphics[0].graphics_type, "{:?}", file);
        assert_eq!(u.len(), u0.len(), "{:?}", file);
        assert_eq!(u[0].parameter, u0[0].parameter, "{:?}", file);
        assert_eq!(u[0].value, u0[0].value, "{:?}", file);
    }
}
