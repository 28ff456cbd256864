use nagame::awww::client::StartStep;
use nagame::awww::restore::{state_file_below, WallpaperFile, WallpaperRestore};
use nagame::awww::{AwwwClient, AwwwManager, WallpaperStep};
use nagame::config::{OutputConfig, Profile};
use nagame::wayland::output::{Purpose, Submission};
use nagame::wayland::{OutputManager, WaylandState};
use nagame::profile::executor::{
    ActivationStep, AfterStep, DisplayStep, ProfileExecutor, RestoreStep,
};
use nagame::profile::ProfileManager;

fn texts(list: &[String]) -> Vec<&str> {
    list.iter().map(String::as_str).collect()
}

fn wallpaper_lines(steps: &[WallpaperStep]) -> Vec<String> {
    steps
        .iter()
        .map(|step| match step {
            WallpaperStep::EnsureDaemon => "ensure".to_string(),
            WallpaperStep::Show(path) => format!("show {path}"),
            WallpaperStep::Remember(path) => format!("remember {path}"),
        })
        .collect()
}

fn activation_lines(steps: &[ActivationStep]) -> Vec<String> {
    steps
        .iter()
        .map(|step| match step {
            ActivationStep::ConfigureDisplays => "displays".to_string(),
            ActivationStep::PickWallpaper(dir) => format!("pick {dir}"),
            ActivationStep::SetWallpaper(path) => format!("set {path}"),
            ActivationStep::Run(command) => format!("run {command}"),
        })
        .collect()
}

fn profile(wallpaper: Option<&str>, dir: Option<&str>, commands: &[&str]) -> Profile {
    Profile {
        name: "p".to_string(),
        outputs: vec![OutputConfig::new("*".to_string())],
        commands: commands.iter().map(|command| command.to_string()).collect(),
        wallpaper: wallpaper.map(str::to_string),
        wallpaper_dir: dir.map(str::to_string),
    }
}

fn with_wallpapers() -> ProfileExecutor {
    let restore = WallpaperRestore::with_state_file("/state");
    ProfileExecutor::with_awww(Some(AwwwManager::new(restore)))
}

#[test]
fn test_wallpaper_search_dirs() {
    let pictures = dirs::picture_dir().and_then(|path| path.to_str().map(str::to_string));
    let home = dirs::home_dir().and_then(|path| path.to_str().map(str::to_string));
    let dirs = WallpaperRestore::get_wallpaper_search_dirs(&pictures, &home);
    assert!(!dirs.is_empty());

    // Should include some common directories
    let dir_strings: Vec<String> = dirs.iter().map(|d| d.to_string()).collect();

    let has_usr_share = dir_strings.iter().any(|d| d.contains("/usr/share"));
    assert!(has_usr_share);
}

#[test]
fn search_directories_come_in_order() {
    let pictures = Some("/home/me/Bilder".to_string());
    let home = Some("/home/me".to_string());
    assert_eq!(
        texts(&WallpaperRestore::get_wallpaper_search_dirs(&pictures, &home)),
        vec![
            "/home/me/Bilder/Wallpapers",
            "/home/me/Bilder",
            "/home/me/wallpapers",
            "/home/me/Wallpapers",
            "/home/me/.local/share/wallpapers",
            "/usr/share/wallpapers",
            "/usr/share/backgrounds",
        ]
    );
    assert_eq!(
        texts(&WallpaperRestore::get_wallpaper_search_dirs(&None, &None)),
        vec!["/usr/share/wallpapers", "/usr/share/backgrounds"]
    );
    assert_eq!(
        texts(&WallpaperRestore::get_wallpaper_search_dirs(&None, &home)),
        vec![
            "/home/me/wallpapers",
            "/home/me/Wallpapers",
            "/home/me/.local/share/wallpapers",
            "/usr/share/wallpapers",
            "/usr/share/backgrounds",
        ]
    );
}

#[test]
fn the_wallpaper_is_remembered_below_the_state_directory() {
    let some = |text: &str| Some(text.to_string());
    let end = "/quickshell/user/current-wallpaper";
    assert_eq!(state_file_below(&some("/s"), &some("/x"), &some("/h")), format!("/s{end}"));
    assert_eq!(state_file_below(&None, &some("/x"), &some("/h")), format!("/x{end}"));
    assert_eq!(state_file_below(&None, &None, &some("/h")), format!("/h/.local/state{end}"));
    assert_eq!(state_file_below(&None, &None, &None), format!("./.local/state{end}"));
    let machine = dirs::state_dir().map(|path| path.to_string_lossy().into_owned());
    let home = dirs::home_dir().map(|path| path.to_string_lossy().into_owned());
    let session = some("/session");
    let restore = WallpaperRestore::new(session.clone());
    assert_eq!(restore.state_file_path(), state_file_below(&machine, &session, &home));
}

#[test]
fn the_remembered_wallpaper_is_trimmed() {
    let restore = WallpaperRestore::with_state_file("/tmp/wallpaper-state");
    assert_eq!(restore.state_file_path(), "/tmp/wallpaper-state");
    assert_eq!(restore.saved_path(" /a b.png\n"), "/a b.png");
    assert_eq!(restore.get_saved_wallpaper("/a.png\n", true), Some("/a.png".to_string()));
    assert_eq!(restore.get_saved_wallpaper("/non/existent/wallpaper.jpg", false), None);
}

#[test]
fn wallpaper_files_are_judged() {
    let judge = |file| WallpaperRestore::validate_wallpaper_file("/w.png", file);
    assert_eq!(judge(WallpaperFile::Usable), Ok(()));
    assert_eq!(
        judge(WallpaperFile::Missing),
        Err("Wallpaper file does not exist: /w.png".to_string())
    );
    assert_eq!(
        judge(WallpaperFile::NotAFile),
        Err("Wallpaper path is not a file: /w.png".to_string())
    );
    assert_eq!(judge(WallpaperFile::Empty), Err("Wallpaper file is empty: /w.png".to_string()));
}

fn entries() -> Vec<(String, bool)> {
    [("/d/a.JPG", true), ("/d/b.txt", true), ("/d/c.png", false), ("/d/e.webp", true)]
        .iter()
        .map(|(path, is_file)| (path.to_string(), *is_file))
        .collect()
}

#[test]
fn only_image_files_are_wallpapers() {
    assert_eq!(
        texts(&WallpaperRestore::wallpapers_among(&entries())),
        vec!["/d/a.JPG", "/d/e.webp"]
    );
    assert!(WallpaperRestore::wallpapers_among(&vec![]).is_empty());
}

#[test]
fn a_random_wallpaper_is_one_of_the_images() {
    let mut seen = [false, false];
    for _ in 0..200 {
        let picked = ProfileExecutor::pick_random_wallpaper("/d", &entries()).unwrap();
        match picked.as_str() {
            "/d/a.JPG" => seen[0] = true,
            "/d/e.webp" => seen[1] = true,
            other => panic!("{other} is no image of the directory"),
        }
    }
    assert_eq!(seen, [true, true]);
    assert_eq!(
        ProfileExecutor::pick_random_wallpaper("/d", &vec![("/d/b.txt".to_string(), true)]),
        Err("No image files found in wallpaper_dir '/d'".to_string())
    );
}

#[test]
fn activation_goes_from_displays_to_commands() {
    let lines = |profile: &Profile, skip: bool| {
        activation_lines(&ProfileExecutor::apply_profile(profile, skip))
    };
    let both = profile(Some("~/a.png"), Some("~/walls"), &["one", "two"]);
    assert_eq!(lines(&both, false), vec!["displays", "pick ~/walls", "run one", "run two"]);
    assert_eq!(lines(&both, true), vec!["displays", "run one", "run two"]);
    let image = profile(Some("~/a.png"), None, &[]);
    assert_eq!(lines(&image, false), vec!["displays", "set ~/a.png"]);
    let bare = profile(None, None, &[]);
    assert_eq!(lines(&bare, false), vec!["displays"]);
}

#[test]
fn only_displays_can_fail_an_activation() {
    let all = [
        ActivationStep::ConfigureDisplays,
        ActivationStep::PickWallpaper("d".to_string()),
        ActivationStep::SetWallpaper("w".to_string()),
        ActivationStep::Run("c".to_string()),
    ];
    for step in &all {
        assert_eq!(step.done(true), AfterStep::Continue);
    }
    assert_eq!(all[0].done(false), AfterStep::Abandon);
    for step in &all[1..] {
        assert_eq!(step.done(false), AfterStep::Continue);
    }
}

#[test]
fn displays_are_configured_or_not() {
    let failed = Err("Display configuration failed".to_string());
    let submission = Submission { serial: 1, requests: vec![], purpose: Purpose::Apply };
    for accepted in [true, false] {
        assert_eq!(DisplayStep::Skip.done(accepted), Ok(()));
        assert_eq!(DisplayStep::Configured.done(accepted), Ok(()));
        assert_eq!(DisplayStep::Rejected.done(accepted), failed);
        assert_eq!(DisplayStep::Fail("why".to_string()).done(accepted), Err("why".to_string()));
    }
    assert_eq!(DisplayStep::Submit(submission.clone()).done(true), Ok(()));
    assert_eq!(DisplayStep::Submit(submission).done(false), failed);
}

#[test]
fn without_output_management_displays_are_skipped() {
    let config = nagame::config::Config::new_default();
    let mut outputs = OutputManager::new();
    let step = ProfileExecutor::configure_displays(&mut outputs, &config.profiles[0]);
    assert!(matches!(step, DisplayStep::Skip));
    let mut state = WaylandState::new();
    assert!(state.registry_event("zwlr_output_manager_v1"));
    let mut outputs = OutputManager { wayland_client: Some(state) };
    match ProfileExecutor::configure_displays(&mut outputs, &config.profiles[0]) {
        DisplayStep::Fail(message) => {
            assert_eq!(message, "Profile no longer matches the connected outputs")
        }
        other => panic!("{other:?}"),
    }
}

#[test]
fn wallpapers_are_shown_and_remembered() {
    let executor = with_wallpapers();
    let shown = executor.set_wallpaper("/a.png", true).unwrap();
    assert_eq!(wallpaper_lines(&shown), vec!["ensure", "show /a.png", "remember /a.png"]);
    assert!(matches!(
        executor.set_wallpaper("/a.png", false),
        Err(message) if message == "Wallpaper file not found: /a.png"
    ));
    let saved = Some("/b.png".to_string());
    let (steps, restored) = executor.restore_wallpaper(&saved);
    assert_eq!(wallpaper_lines(&steps), vec!["ensure", "show /b.png"]);
    assert!(restored);
    let (steps, restored) = executor.restore_wallpaper(&None);
    assert!(steps.is_empty() && !restored);
    let manager = ProfileManager::with_awww(executor, Ok(false));
    let (steps, remembered) = manager.save_current_wallpaper(&saved);
    assert_eq!(wallpaper_lines(&steps), vec!["remember /b.png"]);
    assert!(remembered);
    let (steps, remembered) = manager.save_current_wallpaper(&None);
    assert!(steps.is_empty() && !remembered);
}

#[test]
fn without_a_daemon_wallpapers_are_skipped() {
    let executor = ProfileExecutor::new();
    assert!(executor.set_wallpaper("/a.png", true).unwrap().is_empty());
    assert!(executor.set_wallpaper("/a.png", false).unwrap().is_empty());
    let saved = Some("/b.png".to_string());
    let (steps, restored) = executor.restore_wallpaper(&saved);
    assert!(steps.is_empty() && !restored);
    let (steps, remembered) = executor.save_current_wallpaper(&saved);
    assert!(steps.is_empty() && !remembered);
}

#[test]
fn restoring_is_tried_twenty_times() {
    let mut attempt: u32 = 1;
    let mut waited = 0;
    loop {
        match ProfileExecutor::restore_saved_wallpaper(attempt, Err(())) {
            RestoreStep::TryAgain { wait_ms, attempt: next } => {
                assert_eq!(wait_ms, 250);
                assert_eq!(next, attempt + 1);
                waited += wait_ms;
                attempt = next;
            }
            RestoreStep::Done(restored) => {
                assert!(!restored);
                break;
            }
        }
    }
    assert_eq!((attempt, waited), (20, 4750));
    assert_eq!(ProfileExecutor::restore_saved_wallpaper(3, Ok(true)), RestoreStep::Done(true));
    assert_eq!(ProfileExecutor::restore_saved_wallpaper(3, Ok(false)), RestoreStep::Done(false));
}

#[test]
fn the_wallpaper_daemon_is_asked_five_times() {
    let client = AwwwClient::new();
    assert_eq!(client.start_daemon(0, false), StartStep::AskAgain { wait_ms: 500, asked: 1 });
    assert_eq!(client.start_daemon(4, false), StartStep::AskAgain { wait_ms: 500, asked: 5 });
    assert_eq!(client.start_daemon(5, false), StartStep::GiveUp);
    assert_eq!(client.start_daemon(5, true), StartStep::Running);
}

#[test]
fn command_lines_of_the_wallpaper_daemon() {
    let client = AwwwClient::new();
    assert_eq!(texts(&client.start_arguments()), vec!["--format", "argb", "--no-cache"]);
    assert_eq!(
        texts(&client.set_wallpaper_arguments("/a b.png")),
        vec!["img", "/a b.png", "--transition-type", "fade", "--transition-duration", "1"]
    );
    assert_eq!(texts(&client.clear_wallpaper_arguments("#000")), vec!["clear", "#000"]);
    assert_eq!(client.command_ended(true, "failed: ", "x"), Ok(()));
    assert_eq!(client.command_ended(false, "failed: ", "x"), Err("failed: x".to_string()));
}

#[test]
fn the_shown_image_is_found_in_an_answer() {
    let client = AwwwClient::new();
    let query = |answer: &str| client.query_wallpaper(true, answer);
    assert_eq!(
        query(": eDP-1: 1920x1080, scale: 1, currently displaying: image: /a/b.png\n"),
        Some("/a/b.png".to_string())
    );
    assert_eq!(
        query("DP-1: currently displaying: color: 000000\nDP-2: currently displaying: image: /b.png \r\n"),
        Some("/b.png".to_string())
    );
    assert_eq!(
        query("x currently displaying: image: /one image: /two"),
        Some("/one".to_string())
    );
    assert_eq!(query("currently displaying: image:/a.png"), None);
    assert_eq!(query("currently displaying: color: 000000"), None);
    assert_eq!(query("image: /a.png"), None);
    assert_eq!(query(""), None);
    assert_eq!(client.query_wallpaper(false, "currently displaying: image: /a.png"), None);
}

#[test]
fn programs_of_commands_are_named() {
    assert_eq!(ProfileExecutor::command_name("hyprctl notify -1"), "hyprctl");
    assert_eq!(ProfileExecutor::command_name("  \tls\n-l"), "ls");
    assert_eq!(ProfileExecutor::command_name("ls"), "ls");
    assert_eq!(ProfileExecutor::command_name(""), "");
    assert_eq!(ProfileExecutor::command_name("  "), "  ");
    let profile = profile(None, None, &["a 1", "b 2", "c"]);
    let missing = ProfileExecutor::validate_profile_commands(&profile, &vec![false, true, false]);
    assert_eq!(texts(&missing), vec!["a", "c"]);
}

#[test]
fn a_failed_command_is_reported_with_its_code() {
    let judge = ProfileExecutor::execute_single_command;
    assert_eq!(judge("echo 'test'", true, Some(0), ""), Ok(()));
    assert_eq!(
        judge("false", false, Some(1), "no\n"),
        Err("Command failed (exit code: 1): false\nStderr: no\n".to_string())
    );
    assert_eq!(
        judge("kill", false, None, ""),
        Err("Command failed (exit code: -1): kill\nStderr: ".to_string())
    );
}
