use keyinsight::cli::{screenshot_arg, ScreenshotArg};

fn args(items: &[&str]) -> Vec<String> {
    std::iter::once("keyinsight-native").chain(items.iter().copied()).map(String::from).collect()
}

#[test]
fn no_screenshot_flag_runs_windowed() {
    assert_eq!(screenshot_arg(&args(&[])), ScreenshotArg::Absent);
    assert_eq!(screenshot_arg(&args(&["--library"])), ScreenshotArg::Absent);
}

#[test]
fn screenshot_takes_the_path_that_follows_it() {
    assert_eq!(screenshot_arg(&args(&["--screenshot", "shot.png"])), ScreenshotArg::Path("shot.png"));
    assert_eq!(
        screenshot_arg(&args(&["--screenshot", "/tmp/a b/shot.png", "--library"])),
        ScreenshotArg::Path("/tmp/a b/shot.png")
    );
}

/// `--screenshot` at the end of the command line has no destination.
#[test]
fn screenshot_without_a_path_is_an_error() {
    assert_eq!(screenshot_arg(&args(&["--screenshot"])), ScreenshotArg::MissingPath);
}

/// The next flag is not a path — capturing to a file called `--library`
/// is never what the caller meant.
#[test]
fn a_flag_after_screenshot_is_not_a_path() {
    assert_eq!(screenshot_arg(&args(&["--screenshot", "--library"])), ScreenshotArg::MissingPath);
}

#[test]
fn a_single_dash_path_is_still_a_path() {
    assert_eq!(screenshot_arg(&args(&["--screenshot", "-shot.png"])), ScreenshotArg::Path("-shot.png"));
}
