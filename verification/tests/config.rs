use nagame::config::environment::{
    config_file_below, config_path, expand_below, EnvironmentCheck, Observation,
};
use nagame::config::persistence::{
    revision, temporary_path, update_output_mode, UpdateError,
};
use nagame::config::types::default_enabled;
use nagame::config::{
    expand_home, is_supported_image, Config, ConfigError, ModeError, OutputConfig,
    OutputConfigError, Profile, ProfileError, Transform,
};
use nagame::scale::Scale;

fn output(name: &str) -> OutputConfig {
    OutputConfig {
        name: name.to_string(),
        enabled: true,
        mode: None,
        scale: None,
        position: None,
        transform: None,
        adaptive_sync: None,
    }
}

fn profile(name: &str, outputs: Vec<OutputConfig>) -> Profile {
    Profile {
        name: name.to_string(),
        outputs,
        commands: vec![],
        wallpaper: None,
        wallpaper_dir: None,
    }
}

fn scale(value: f64) -> Scale {
    Scale { bits: value.to_bits() }
}

#[test]
fn test_transform_conversion() {
    assert_eq!(Transform::Normal.to_wayland_transform(), 0);
    assert_eq!(Transform::Rotate90.to_wayland_transform(), 1);
    assert_eq!(Transform::Rotate180.to_wayland_transform(), 2);
    assert_eq!(Transform::Rotate270.to_wayland_transform(), 3);
}

#[test]
fn transform_numbers_go_both_ways() {
    for value in 0u32..8 {
        assert_eq!(Transform::from_wayland_transform(value).to_wayland_transform(), value);
    }
    assert_eq!(Transform::Flipped.to_wayland_transform(), 4);
    assert_eq!(Transform::Flipped270.to_wayland_transform(), 7);
    assert_eq!(Transform::from_wayland_transform(8), Transform::Normal);
    assert_eq!(Transform::from_wayland_transform(u32::MAX), Transform::Normal);
}

#[test]
fn test_default_config() {
    let config = Config::new_default();
    assert_eq!(config.profiles.len(), 1);
    assert_eq!(config.profiles[0].name, "default");
}

#[test]
fn the_default_config_is_valid_and_fits_one_output() {
    let config = Config::new_default();
    assert!(config.validate().is_ok());
    assert_eq!(config.profiles[0].outputs.len(), 1);
    assert_eq!(config.profiles[0].outputs[0].name, "*");
    assert!(config.profiles[0].outputs[0].enabled);
    assert!(config.profiles[0].commands.is_empty());
    assert!(config.checked().is_ok());
}

#[test]
fn a_new_output_is_enabled() {
    let output = OutputConfig::new("DP-1".to_string());
    assert_eq!(output.name, "DP-1");
    assert!(output.enabled && default_enabled());
    assert!(output.mode.is_none() && output.scale.is_none() && output.position.is_none());
    assert!(output.transform.is_none() && output.adaptive_sync.is_none());
}

#[test]
fn rejects_duplicate_names_and_outputs() {
    let duplicate_profiles = Config {
        profiles: vec![
            Profile {
                name: "same".to_string(),
                outputs: vec![output("DP-1")],
                commands: vec![],
                wallpaper: None,
                wallpaper_dir: None,
            },
            Profile {
                name: "same".to_string(),
                outputs: vec![output("DP-2")],
                commands: vec![],
                wallpaper: None,
                wallpaper_dir: None,
            },
        ],
    };
    assert!(duplicate_profiles.validate().is_err());

    let duplicate_outputs = Config {
        profiles: vec![Profile {
            name: "duplicate-outputs".to_string(),
            outputs: vec![output("DP-1"), output("DP-1")],
            commands: vec![],
            wallpaper: None,
            wallpaper_dir: None,
        }],
    };
    assert!(duplicate_outputs.validate().is_err());
}

#[test]
fn rejects_invalid_mode_values() {
    let output = output("DP-1");

    for mode in ["0x1080@60", "1920x1080@0", "1920x1080@60@2"] {
        assert!(output.parse_mode(mode).is_err(), "accepted mode {mode}");
    }
}

#[test]
fn every_fault_of_a_configuration_has_its_error() {
    let empty = Config { profiles: vec![] };
    assert_eq!(empty.validate(), Err(ConfigError::NoProfiles));

    let twice = Config {
        profiles: vec![profile("a", vec![output("x")]), profile("a", vec![output("x")])],
    };
    assert_eq!(twice.validate(), Err(ConfigError::DuplicateProfile(1)));

    let nameless = Config { profiles: vec![profile("", vec![output("x")])] };
    assert_eq!(
        nameless.validate(),
        Err(ConfigError::InvalidProfile(0, ProfileError::EmptyName))
    );

    let bare = Config { profiles: vec![profile("a", vec![output("x")]), profile("b", vec![])] };
    assert_eq!(bare.validate(), Err(ConfigError::InvalidProfile(1, ProfileError::NoOutputs)));

    let repeated = profile("a", vec![output("x"), output("y"), output("x")]);
    assert_eq!(repeated.validate(), Err(ProfileError::DuplicateOutput(2)));

    let unnamed = profile("a", vec![output("x"), output("")]);
    assert_eq!(
        unnamed.validate(),
        Err(ProfileError::InvalidOutput(1, OutputConfigError::EmptyName))
    );

    let mut bad_mode = output("x");
    bad_mode.mode = Some("1920".to_string());
    assert_eq!(
        bad_mode.validate(),
        Err(OutputConfigError::InvalidMode(ModeError::NotWidthByHeight))
    );

    for value in [0.0, -0.0, -1.0, 10.000001, f64::NAN, f64::INFINITY, f64::NEG_INFINITY] {
        let mut bad_scale = output("x");
        bad_scale.scale = Some(scale(value));
        assert_eq!(bad_scale.validate(), Err(OutputConfigError::ScaleOutOfRange), "{value}");
    }
    for value in [f64::MIN_POSITIVE, 5e-324, 0.1, 1.0, 1.25, 9.999999999999998, 10.0] {
        let mut good_scale = output("x");
        good_scale.scale = Some(scale(value));
        assert_eq!(good_scale.validate(), Ok(()), "{value}");
    }
}

#[test]
fn every_fault_of_a_mode_has_its_error() {
    let output = output("DP-1");
    let fault = |text: &str| output.parse_mode(text).unwrap_err();
    assert_eq!(fault("1920x1080@60@2"), ModeError::ManyRates);
    assert_eq!(fault("1920x1080@@"), ModeError::ManyRates);
    assert_eq!(fault("1920"), ModeError::NotWidthByHeight);
    assert_eq!(fault("1920x1080x3"), ModeError::NotWidthByHeight);
    assert_eq!(fault(""), ModeError::NotWidthByHeight);
    assert_eq!(fault("ax1080"), ModeError::InvalidWidth);
    assert_eq!(fault("4294967296x1080"), ModeError::InvalidWidth);
    assert_eq!(fault("-1x1080"), ModeError::InvalidWidth);
    assert_eq!(fault("1920x"), ModeError::InvalidHeight);
    assert_eq!(fault("1920x 1080"), ModeError::InvalidHeight);
    assert_eq!(fault("0x1080"), ModeError::ZeroDimension);
    assert_eq!(fault("1920x0@60"), ModeError::ZeroDimension);
    assert_eq!(fault("1920x1080@"), ModeError::InvalidRefreshRate);
    assert_eq!(fault("1920x1080@sixty"), ModeError::InvalidRefreshRate);
    assert_eq!(fault("1920x1080@60 "), ModeError::InvalidRefreshRate);
    assert_eq!(fault("1920x1080@0"), ModeError::RefreshRateOutOfRange);
    assert_eq!(fault("1920x1080@-60"), ModeError::RefreshRateOutOfRange);
    assert_eq!(fault("1920x1080@nan"), ModeError::RefreshRateOutOfRange);
    assert_eq!(fault("1920x1080@inf"), ModeError::RefreshRateOutOfRange);
    assert_eq!(fault("1920x1080@4294967.296"), ModeError::RefreshRateOutOfRange);
}

#[test]
fn modes_are_read_exactly() {
    let output = output("DP-1");
    assert_eq!(output.parse_mode("1920x1080"), Ok((1920, 1080, None)));
    assert_eq!(output.parse_mode("1920x1080@60"), Ok((1920, 1080, Some(60000))));
    assert_eq!(output.parse_mode("+1920x+1080@+60.5"), Ok((1920, 1080, Some(60500))));
    assert_eq!(output.parse_mode("1x1@143.973"), Ok((1, 1, Some(143973))));
    assert_eq!(output.parse_mode("1x1@59.9405"), Ok((1, 1, Some(59941))));
    assert_eq!(output.parse_mode("1x1@6e1"), Ok((1, 1, Some(60000))));
    assert_eq!(output.parse_mode("4294967295x1@4294967.295"), Ok((u32::MAX, 1, Some(u32::MAX))));
}

const SOURCE: &str = r#"# leading comment
[[profile]]
name = "desk"
wallpaper = "wall.jpg"

  [[profile.output]]
  name = "DP-*" # selector comment
  mode = "2560x1440@120" # mode comment
  scale = 1.25
  position = [10, 20]
"#;

fn mode_in(text: &str, profile: usize, output: usize) -> Option<String> {
    let document = text.parse::<toml_edit::DocumentMut>().unwrap();
    let item = document["profile"][profile]["output"][output].get("mode")?.clone();
    item.as_str().map(|mode| mode.to_string())
}

#[test]
fn targeted_update_preserves_unrelated_values_and_comments() {
    let updated = update_output_mode(SOURCE, "desk", 0, "2560x1440@143.973").unwrap();

    assert!(updated.contains("# leading comment"));
    assert!(updated.contains("# selector comment"));
    assert!(updated.contains("# mode comment"));
    assert!(updated.contains("wallpaper = \"wall.jpg\""));
    assert!(updated.contains("scale = 1.25"));
    assert!(updated.contains("position = [10, 20]"));
    assert_eq!(mode_in(&updated, 0, 0).as_deref(), Some("2560x1440@143.973"));
}

#[test]
fn refuses_stale_profile_or_output_targets() {
    assert!(update_output_mode(SOURCE, "missing", 0, "2560x1440@144").is_err());
    assert!(update_output_mode(SOURCE, "desk", 1, "2560x1440@144").is_err());
}

#[test]
fn adds_mode_when_output_has_no_mode_key() {
    let source = r#"[[profile]]
name = "desk"

[[profile.output]]
name = "DP-*"
scale = 1.25
"#;

    let updated = update_output_mode(source, "desk", 0, "2560x1440@144").unwrap();

    assert!(updated.contains("mode = \"2560x1440@144\""));
    assert_eq!(mode_in(&updated, 0, 0).as_deref(), Some("2560x1440@144"));
}

#[test]
fn targets_output_by_position_when_selectors_overlap() {
    let source = r#"[[profile]]
name = "desk"

[[profile.output]]
name = "*"
mode = "1920x1080@60"

[[profile.output]]
name = "DP-*"
mode = "2560x1440@120"
"#;

    let updated = update_output_mode(source, "desk", 1, "2560x1440@144").unwrap();

    assert_eq!(mode_in(&updated, 0, 0).as_deref(), Some("1920x1080@60"));
    assert_eq!(mode_in(&updated, 0, 1).as_deref(), Some("2560x1440@144"));
}

#[test]
fn every_fault_of_an_update_has_its_error_and_message() {
    let fault = |source: &str, name: &str, index: usize| {
        update_output_mode(source, name, index, "1x1@1").unwrap_err()
    };
    assert_eq!(fault("not toml", "desk", 0), UpdateError::NotToml);
    assert_eq!(fault("", "desk", 0), UpdateError::NoProfiles);
    assert_eq!(fault("profile = [{ name = \"desk\" }]", "desk", 0), UpdateError::NoProfiles);
    assert_eq!(fault(SOURCE, "missing", 0), UpdateError::NoProfile);
    assert_eq!(fault("[[profile]]\nname = 1\n", "1", 0), UpdateError::NoProfile);
    assert_eq!(fault("[[profile]]\nname = \"desk\"\n", "desk", 0), UpdateError::NoOutputs);
    assert_eq!(fault(SOURCE, "desk", 1), UpdateError::NoOutput);
    for mode in ["", "wide", "0x1080@60", "1920x1080@0", "1920x1080@60@2", "1x1\"", "1x1@1\n"] {
        assert_eq!(update_output_mode(SOURCE, "desk", 0, mode), Err(UpdateError::InvalidMode));
        assert_eq!(update_output_mode(SOURCE, "desk", 1, mode), Err(UpdateError::NoOutput));
    }
    let quotes = "'".repeat(300);
    assert_eq!(update_output_mode(SOURCE, "desk", 0, &quotes), Err(UpdateError::InvalidMode));

    assert_eq!(
        UpdateError::NotToml.message("desk", 1),
        "Failed to parse configuration for targeted update"
    );
    assert_eq!(
        UpdateError::NoProfiles.message("desk", 1),
        "Configuration does not contain a profile array"
    );
    assert_eq!(UpdateError::NoProfile.message("desk", 1), "Profile 'desk' no longer exists");
    assert_eq!(
        UpdateError::NoOutputs.message("desk", 1),
        "Profile 'desk' does not contain outputs"
    );
    assert_eq!(
        UpdateError::NoOutput.message("desk", 12),
        "Output index 12 no longer exists in profile 'desk'"
    );
    assert_eq!(UpdateError::InvalidMode.message("desk", 1), "Updated configuration is invalid");
}

#[test]
fn an_update_takes_the_first_profile_of_the_name() {
    let source = "[[profile]]\nname = \"a\"\n[[profile.output]]\nname = \"x\"\nmode = \"1x1\"\n\
                  [[profile]]\nname = \"b\"\n[[profile.output]]\nname = \"x\"\nmode = \"2x2\"\n\
                  [[profile]]\nname = \"b\"\n[[profile.output]]\nname = \"x\"\nmode = \"3x3\"\n";
    let updated = update_output_mode(source, "b", 0, "4x4").unwrap();
    assert_eq!(mode_in(&updated, 0, 0).as_deref(), Some("1x1"));
    assert_eq!(mode_in(&updated, 1, 0).as_deref(), Some("4x4"));
    assert_eq!(mode_in(&updated, 2, 0).as_deref(), Some("3x3"));
    let again = update_output_mode(&updated, "b", 0, "5x5").unwrap();
    assert_eq!(again, update_output_mode(source, "b", 0, "5x5").unwrap());
}

#[test]
fn an_update_replaces_a_mode_that_is_no_string() {
    let source = "[[profile]]\nname = \"a\"\n[[profile.output]]\nname = \"x\"\nmode = 3 # three\n";
    let updated = update_output_mode(source, "a", 0, "1x1").unwrap();
    assert_eq!(mode_in(&updated, 0, 0).as_deref(), Some("1x1"));
    assert!(updated.contains("# three"));
}

#[test]
fn revisions_are_digests_in_hexadecimal_notation() {
    assert_eq!(
        revision(""),
        "e3b0c44298fc1c149afbf4c8996fb92427ae41e4649b934ca495991b7852b855"
    );
    assert_eq!(
        revision("abc"),
        "ba7816bf8f01cfea414140de5dae2223b00361a396177a9cb410ff61f20015ad"
    );
    assert_ne!(revision("a"), revision("b"));
    assert_eq!(revision(SOURCE).len(), 64);
}

#[test]
fn temporary_files_lie_beside_the_configuration() {
    assert_eq!(
        temporary_path("/home/me/.config/nagame", 77, 3),
        "/home/me/.config/nagame/.config.toml.nagame-77-3.tmp"
    );
    assert_eq!(temporary_path("/", 1, 0), "/.config.toml.nagame-1-0.tmp");
}

#[test]
fn home_directories_are_expanded() {
    let home = Some("/home/me".to_string());
    assert_eq!(expand_below("~", &home), "/home/me");
    assert_eq!(expand_below("~/a/b.png", &home), "/home/me/a/b.png");
    assert_eq!(expand_below("~/", &home), "/home/me/");
    assert_eq!(expand_below("~//etc", &home), "/etc");
    assert_eq!(expand_below("~user/a", &home), "~user/a");
    assert_eq!(expand_below("/a/~", &home), "/a/~");
    assert_eq!(expand_below("", &home), "");
    assert_eq!(expand_below("~/a", &None), "~/a");
    assert_eq!(expand_below("~", &None), "~");
}

#[test]
fn the_home_directory_is_that_of_the_user() {
    let home = dirs::home_dir().map(|path| path.to_string_lossy().into_owned());
    assert_eq!(expand_home("~"), expand_below("~", &home));
    assert_eq!(expand_home("~/x"), expand_below("~/x", &home));
    assert_eq!(expand_home("/x"), "/x");
}

#[test]
fn joined_paths_are_those_of_the_standard_library() {
    for base in ["", "/", "/a", "/a/", "a", "."] {
        for part in ["", "b", "b/c", "/b", "./b", ".."] {
            let joined = nagame::paths::join_path(base, part);
            let expected = std::path::Path::new(base).join(part);
            assert_eq!(joined, expected.to_string_lossy(), "{base:?} {part:?}");
        }
    }
}

#[test]
fn extensions_are_those_of_the_standard_library() {
    let names = [
        "", "a", "a.png", "a.b.PNG", ".png", "..", ".", "a.", "/x/y.jpg", "/x.y/z", "a.png/",
        "a.png/.", "a.png//", "./a.gif", "../.bmp", "...", "..png", "/", "//", "a/..", "é.webp",
    ];
    for name in names {
        let ours = nagame::paths::extension_of(name)
            .map(|chars| chars.into_iter().collect::<String>());
        let theirs = std::path::Path::new(name)
            .extension()
            .map(|ending| ending.to_string_lossy().into_owned());
        assert_eq!(ours, theirs, "{name:?}");
    }
}

#[test]
fn images_are_told_by_their_extension() {
    for name in ["a.jpg", "a.JPEG", "b.Png", "/x/c.gif", "d.webp", "e.BMP", "f.tar.png"] {
        assert!(is_supported_image(name, true), "{name}");
        assert!(!is_supported_image(name, false), "{name}");
    }
    for name in ["jpg", ".jpg", "a.jpgx", "a.tiff", "a", "png/a", "a.png.txt", "a.jp g"] {
        assert!(!is_supported_image(name, true), "{name}");
    }
}

#[test]
fn the_configuration_file_has_a_place() {
    let dir = Some("/home/me/.config".to_string());
    assert_eq!(config_file_below(&dir), "/home/me/.config/nagame/config.toml");
    assert_eq!(config_file_below(&None), "./nagame/config.toml");
    assert_eq!(config_path(Some("/x.toml".to_string())), "/x.toml");
    let machine = dirs::config_dir().map(|path| path.to_string_lossy().into_owned());
    assert_eq!(config_path(None), config_file_below(&machine));
}

fn described(check: &EnvironmentCheck) -> String {
    match check {
        EnvironmentCheck::Wallpaper { profile, path } => format!("wallpaper {profile} {path}"),
        EnvironmentCheck::Directory { profile, path } => format!("directory {profile} {path}"),
        EnvironmentCheck::Command { profile, command } => format!("command {profile} {command}"),
    }
}

fn full_config() -> Config {
    let mut first = profile("one", vec![output("x")]);
    first.wallpaper = Some("~/a.png".to_string());
    first.wallpaper_dir = Some("/walls".to_string());
    first.commands = vec!["echo 1".to_string(), "echo 2".to_string()];
    let second = profile("two", vec![output("x")]);
    let mut third = profile("three", vec![output("x")]);
    third.commands = vec!["true".to_string()];
    Config { profiles: vec![first, second, third] }
}

#[test]
fn the_environment_is_checked_in_order() {
    let config = full_config();
    let checks = config.environment_checks(&Some("/home/me".to_string()));
    let lines: Vec<String> = checks.iter().map(described).collect();
    assert_eq!(
        lines,
        vec![
            "wallpaper one /home/me/a.png",
            "directory one /walls",
            "command one echo 1",
            "command one echo 2",
            "command three true",
        ]
    );
    let home = dirs::home_dir().map(|path| path.to_string_lossy().into_owned());
    let expected: Vec<String> = config.environment_checks(&home).iter().map(described).collect();
    let found: Vec<String> = config.validate_environment().iter().map(described).collect();
    assert_eq!(found, expected);
}

#[test]
fn every_observation_has_its_verdict() {
    let wallpaper = EnvironmentCheck::Wallpaper { profile: "p".into(), path: "/a".into() };
    let directory = EnvironmentCheck::Directory { profile: "p".into(), path: "/d".into() };
    let command = EnvironmentCheck::Command { profile: "p".into(), command: "x (".into() };
    assert_eq!(
        wallpaper.judge(&Observation::Unavailable),
        Err("Wallpaper for profile 'p' is unavailable: /a".to_string())
    );
    assert_eq!(
        wallpaper.judge(&Observation::Wallpaper { is_file: false, size: 3 }),
        Err("Wallpaper for profile 'p' is not a non-empty file: /a".to_string())
    );
    assert_eq!(
        wallpaper.judge(&Observation::Wallpaper { is_file: true, size: 0 }),
        Err("Wallpaper for profile 'p' is not a non-empty file: /a".to_string())
    );
    assert_eq!(wallpaper.judge(&Observation::Wallpaper { is_file: true, size: 1 }), Ok(()));
    assert_eq!(
        directory.judge(&Observation::Unavailable),
        Err("Wallpaper directory for profile 'p' is unavailable: /d".to_string())
    );
    assert_eq!(
        directory.judge(&Observation::NotADirectory),
        Err("Wallpaper directory for profile 'p' is not a directory: /d".to_string())
    );
    assert_eq!(
        directory.judge(&Observation::Unreadable { reason: "no".to_string() }),
        Err("no".to_string())
    );
    let texts = Observation::Entries {
        entries: vec![("/d/a.txt".to_string(), true), ("/d/b.png".to_string(), false)],
    };
    assert_eq!(
        directory.judge(&texts),
        Err("Wallpaper directory for profile 'p' contains no supported images: /d".to_string())
    );
    let images = Observation::Entries {
        entries: vec![("/d/a.txt".to_string(), true), ("/d/b.png".to_string(), true)],
    };
    assert_eq!(directory.judge(&images), Ok(()));
    assert_eq!(
        command.judge(&Observation::NoShell),
        Err("Failed to run the shell syntax checker".to_string())
    );
    assert_eq!(
        command.judge(&Observation::Syntax { accepted: false }),
        Err("Profile 'p' contains invalid shell syntax: x (".to_string())
    );
    assert_eq!(command.judge(&Observation::Syntax { accepted: true }), Ok(()));

    let strange = Err("The observation is not one of this check".to_string());
    assert_eq!(wallpaper.judge(&Observation::Syntax { accepted: true }), strange);
    assert_eq!(wallpaper.judge(&images), strange);
    assert_eq!(directory.judge(&Observation::Wallpaper { is_file: true, size: 1 }), strange);
    assert_eq!(directory.judge(&Observation::NoShell), strange);
    assert_eq!(command.judge(&Observation::Unavailable), strange);
    assert_eq!(command.judge(&images), strange);
}

fn tables<'a>(value: &'a mut toml::Value, key: &str) -> &'a mut Vec<toml::Value> {
    value.get_mut(key).unwrap().as_array_mut().unwrap()
}

/// The values of `source` with this mode for one output.
fn with_mode(source: &str, profile: usize, output: usize, mode: &str) -> toml::Value {
    let mut expected: toml::Value = toml::from_str(source).unwrap();
    let outputs = tables(&mut tables(&mut expected, "profile")[profile], "output");
    let entries = outputs[output].as_table_mut().unwrap();
    entries.insert("mode".to_string(), toml::Value::String(mode.to_string()));
    expected
}

/// The comments of a text, which holds no number sign in a string.
fn comments(text: &str) -> Vec<String> {
    text.lines()
        .filter_map(|line| line.split_once('#'))
        .map(|(_, comment)| comment.to_string())
        .collect()
}

#[test]
fn an_updated_text_reads_as_the_document_with_one_other_mode() {
    let sources = [
        "# top\ntitle = \"t\" # title\n\n[[profile]] # head\nname = \"a\"\n\
         exec = [\n  \"x\", # first\n  \"y\",\n]\n\n  # above\n  [[profile.output]]\n  \
         name = \"x\"\n  mode = \"1x1\" # old\n\n[other]\nkey.dotted = 1 # dotted\n# bottom",
        "[[profile]]\r\nname = \"a\"\r\n[[profile.output]]\r\nmode = '1x1' # old\r\n\
         name = \"x\"\r\n# end\r\n",
        "[[profile]]\nname = \"a\"\n[[profile.output]]\nname = \"x\"\nmode = \"1x1\" # no line end",
        "[[profile]]\nname = \"a\"\n[[profile.output]]\nname = \"x\"\n[profile.output.extra]\nk = 1\n\
         [[profile.output]]\nname = \"y\"\n[[profile]]\nname = \"b\"\n",
        "[[profile]]\nname = \"a\"\n[[profile.output]]\n# only a comment\n",
        "[[profile]]\nz.a = 1\nname = \"a\" # name\nz.b = { c = [1, 2] }\n[[profile.output]]\n\
         \"quoted key\" = 1979-05-27\n'mode' = \"1x1\"\n",
        "[[profile]]\nname = \"\"\"\na\"\"\"\n[[profile.output]]\nmode.part = 1\n",
    ];
    for source in sources {
        let updated = update_output_mode(source, "a", 0, "2560x1440@143.973").unwrap();
        let values: toml::Value = toml::from_str(&updated).unwrap();
        assert_eq!(values, with_mode(source, 0, 0, "2560x1440@143.973"), "{updated}");
        assert_eq!(comments(&updated), comments(source), "{updated}");
        let again = update_output_mode(&updated, "a", 0, "1x2@3").unwrap();
        assert_eq!(again, update_output_mode(source, "a", 0, "1x2@3").unwrap());
    }
}

/// The keys of one output of a text, in the order of their lines.
fn keys_of_output(text: &str, output: usize) -> Vec<String> {
    let document = text.parse::<toml_edit::DocumentMut>().unwrap();
    let table = document["profile"][0]["output"][output].as_table().unwrap().clone();
    table.iter().map(|(key, _)| key.to_string()).collect()
}

#[test]
fn an_update_keeps_the_order_of_keys() {
    let start = "[[profile]]\nname = \"a\"\n[[profile.output]]\n";
    let orders = [
        ("name = \"x\"\nmode = \"1x1\"\nscale = 1.0\n", vec!["name", "mode", "scale"]),
        ("name = \"x\"\nmode.part = 1\nscale = 1.0\n", vec!["name", "mode", "scale"]),
        ("scale = 1.0\nname = \"x\"\n", vec!["scale", "name", "mode"]),
        ("name = \"x\"\n[profile.output.extra]\nk = 1\n", vec!["name", "mode", "extra"]),
        (
            "name = \"x\"\n[profile.output.extra]\nk = 1\n[profile.output.mode]\nk = 1\n",
            vec!["name", "mode", "extra"],
        ),
        (
            "name = \"x\"\nz.k = 1\n[profile.output.mode]\nk = 1\n[profile.output.z.y]\nk = 2\n",
            vec!["name", "z", "mode"],
        ),
    ];
    for (rest, expected) in orders {
        let source = format!("{start}{rest}");
        let updated = update_output_mode(&source, "a", 0, "2x2@3").unwrap();
        assert_eq!(keys_of_output(&updated, 0), expected, "{updated}");
        let values: toml::Value = toml::from_str(&updated).unwrap();
        assert_eq!(values, with_mode(&source, 0, 0, "2x2@3"), "{updated}");
    }
}

#[test]
fn an_update_keeps_an_output_that_is_no_array_of_tables() {
    let source = "[[profile]]\nname = \"a\"\noutput = [{ name = \"x\" }] # kept\n\
                  [other]\nk = 1\n\
                  [[profile]]\nname = \"b\"\n[[profile.output]]\nname = \"y\"\n";
    let updated = update_output_mode(source, "b", 0, "2x2@3").unwrap();
    let (front, back) = updated.split_at(source.len());
    assert_eq!(front, source);
    assert_eq!(back, "mode = \"2x2@3\"\n");
    assert_eq!(update_output_mode(source, "a", 0, "2x2@3"), Err(UpdateError::NoOutputs));
}
