//! Platform-facing helpers: capability reporting per operating system, tray
//! icon selection, and recognition of meeting applications by their bundle
//! identifiers.

use vstd::prelude::*;
use crate::chars::chars_of;
use crate::words::push_word;

verus! {

/// `p` occurs somewhere inside `s`.
pub open spec fn has_substring(s: Seq<char>, p: Seq<char>) -> bool {
    exists|i: int| 0 <= i <= s.len() - p.len() && #[trigger] s.subrange(i, i + p.len()) == p
}

/// Whether `hay` holds `pat` as a contiguous substring.
pub fn contains_sub(hay: &str, pat: &str) -> (r: bool)
    ensures
        r == has_substring(hay@, pat@),
{
    let hc = chars_of(hay);
    let pc = chars_of(pat);
    let n = hc.len();
    let m = pc.len();
    if m > n {
        proof {
            if has_substring(hay@, pat@) {
                let w = choose|t: int|
                    0 <= t <= hay@.len() - pat@.len() && #[trigger] hay@.subrange(
                        t,
                        t + pat@.len(),
                    ) == pat@;
            }
        }
        return false;
    }
    let mut i: usize = 0;
    while i <= n - m
        invariant
            n == hay@.len(),
            m == pat@.len(),
            hc@ == hay@,
            pc@ == pat@,
            m <= n,
            i <= n - m + 1,
            forall|t: int| 0 <= t < i ==> #[trigger] hay@.subrange(t, t + pat@.len()) != pat@,
        decreases n - m - i + 1,
    {
        let mut q: usize = 0;
        let mut ok = true;
        while q < m && ok
            invariant
                n == hay@.len(),
                m == pat@.len(),
                hc@ == hay@,
                pc@ == pat@,
                i + m <= n,
                q <= m,
                ok ==> forall|t: int| 0 <= t < q ==> hay@[i + t] == pat@[t],
                !ok ==> q < m && hay@[i + q as int] != pat@[q as int],
            decreases m - q + (if ok {
                1int
            } else {
                0int
            }),
        {
            if hc[i + q] != pc[q] {
                ok = false;
            } else {
                q = q + 1;
            }
        }
        if ok {
            proof {
                assert(hay@.subrange(i as int, i as int + pat@.len()) =~= pat@);
            }
            return true;
        }
        proof {
            assert(hay@.subrange(i as int, i as int + pat@.len())[q as int] != pat@[q as int]);
        }
        i = i + 1;
    }
    proof {
        if has_substring(hay@, pat@) {
            let w = choose|t: int|
                0 <= t <= hay@.len() - pat@.len() && #[trigger] hay@.subrange(
                    t,
                    t + pat@.len(),
                ) == pat@;
            assert(w < i);
        }
    }
    false
}

/// A bundle identifier that belongs to a known meeting application.
pub open spec fn is_meeting_app(id: Seq<char>) -> bool {
    has_substring(id, "us.zoom.xos"@) || has_substring(id, "com.microsoft.teams"@)
        || has_substring(id, "com.google.Chrome"@) || has_substring(id, "com.brave.Browser"@)
        || has_substring(id, "com.apple.Safari"@) || has_substring(
        id,
        "com.cisco.webexmeetingsapp"@,
    ) || has_substring(id, "com.tinyspeck.slackmacgap"@) || has_substring(
        id,
        "com.hnc.Discord"@,
    ) || has_substring(id, "org.chromium.Chromium"@) || has_substring(
        id,
        "com.microsoft.edgemac"@,
    ) || has_substring(id, "org.mozilla.firefox"@) || has_substring(
        id,
        "com.operasoftware.Opera"@,
    )
}

fn is_meeting_app_check(id: &str) -> (r: bool)
    ensures
        r == is_meeting_app(id@),
{
    contains_sub(id, "us.zoom.xos") || contains_sub(id, "com.microsoft.teams") || contains_sub(
        id,
        "com.google.Chrome",
    ) || contains_sub(id, "com.brave.Browser") || contains_sub(id, "com.apple.Safari")
        || contains_sub(id, "com.cisco.webexmeetingsapp") || contains_sub(
        id,
        "com.tinyspeck.slackmacgap",
    ) || contains_sub(id, "com.hnc.Discord") || contains_sub(id, "org.chromium.Chromium")
        || contains_sub(id, "com.microsoft.edgemac") || contains_sub(
        id,
        "org.mozilla.firefox",
    ) || contains_sub(id, "com.operasoftware.Opera")
}

/// The identifiers that name a meeting application, kept in order.
pub open spec fn spec_filter_meeting_apps(ids: Seq<Seq<char>>) -> Seq<Seq<char>>
    decreases ids.len(),
{
    if ids.len() == 0 {
        Seq::empty()
    } else {
        let rest = spec_filter_meeting_apps(ids.drop_last());
        if is_meeting_app(ids.last()) {
            rest.push(ids.last())
        } else {
            rest
        }
    }
}

/// Keep only the bundle identifiers of known meeting applications.
pub fn filter_meeting_apps(apps: &Vec<String>) -> (r: Vec<String>)
    ensures
        r.deep_view() == spec_filter_meeting_apps(apps.deep_view()),
{
    let ghost av = apps.deep_view();
    let mut r: Vec<String> = Vec::new();
    let mut i: usize = 0;
    while i < apps.len()
        invariant
            av == apps.deep_view(),
            i <= apps.len(),
            r.deep_view() == spec_filter_meeting_apps(av.take(i as int)),
        decreases apps.len() - i,
    {
        let keep = is_meeting_app_check(apps[i].as_str());
        proof {
            assert(av.take(i as int + 1).drop_last() =~= av.take(i as int));
            assert(av.take(i as int + 1).last() == av[i as int]);
            assert(apps@[i as int]@ == av[i as int]);
        }
        if keep {
            push_word(&mut r, apps[i].clone());
        }
        i = i + 1;
    }
    proof {
        assert(av.take(apps@.len() as int) =~= av);
    }
    r
}

/// The display name for a bundle identifier, decided by the first matching
/// brand fragment.
pub open spec fn spec_app_name(id: Seq<char>) -> Seq<char> {
    if has_substring(id, "zoom"@) {
        "Zoom"@
    } else if has_substring(id, "teams"@) {
        "Teams"@
    } else if has_substring(id, "Chrome"@) || has_substring(id, "Chromium"@) {
        "Chrome"@
    } else if has_substring(id, "Safari"@) {
        "Safari"@
    } else if has_substring(id, "webex"@) || has_substring(id, "cisco"@) {
        "WebEx"@
    } else if has_substring(id, "Slack"@) || has_substring(id, "slackmacgap"@) {
        "Slack"@
    } else if has_substring(id, "Discord"@) {
        "Discord"@
    } else if has_substring(id, "edgemac"@) {
        "Edge"@
    } else if has_substring(id, "firefox"@) {
        "Firefox"@
    } else if has_substring(id, "Opera"@) {
        "Opera"@
    } else if has_substring(id, "brave"@) || has_substring(id, "Brave"@) {
        "Brave"@
    } else {
        "Meeting app"@
    }
}

/// A friendly display name for a meeting application's bundle identifier.
pub fn app_name(bundle_id: &str) -> (r: &'static str)
    ensures
        r@ == spec_app_name(bundle_id@),
{
    if contains_sub(bundle_id, "zoom") {
        "Zoom"
    } else if contains_sub(bundle_id, "teams") {
        "Teams"
    } else if contains_sub(bundle_id, "Chrome") || contains_sub(bundle_id, "Chromium") {
        "Chrome"
    } else if contains_sub(bundle_id, "Safari") {
        "Safari"
    } else if contains_sub(bundle_id, "webex") || contains_sub(bundle_id, "cisco") {
        "WebEx"
    } else if contains_sub(bundle_id, "Slack") || contains_sub(bundle_id, "slackmacgap") {
        "Slack"
    } else if contains_sub(bundle_id, "Discord") {
        "Discord"
    } else if contains_sub(bundle_id, "edgemac") {
        "Edge"
    } else if contains_sub(bundle_id, "firefox") {
        "Firefox"
    } else if contains_sub(bundle_id, "Opera") {
        "Opera"
    } else if contains_sub(bundle_id, "brave") || contains_sub(bundle_id, "Brave") {
        "Brave"
    } else {
        "Meeting app"
    }
}

#[derive(Clone, Copy, Debug, PartialEq, Eq, Structural)]
pub enum TrayIconState {
    Idle,
    Recording,
}

#[derive(Clone, Copy, Debug, PartialEq, Eq, Structural)]
pub enum AppTheme {
    Dark,
    Light,
    Colored,
}

/// The icon resource each theme and state pair selects: dark themes use
/// light icons, light themes dark icons, and the colored theme its own.
pub open spec fn spec_icon_path(theme: AppTheme, state: TrayIconState) -> Seq<char> {
    match (theme, state) {
        (AppTheme::Dark, TrayIconState::Idle) => "resources/tray_idle.png"@,
        (AppTheme::Dark, TrayIconState::Recording) => "resources/tray_recording.png"@,
        (AppTheme::Light, TrayIconState::Idle) => "resources/tray_idle_dark.png"@,
        (AppTheme::Light, TrayIconState::Recording) => "resources/tray_recording_dark.png"@,
        (AppTheme::Colored, TrayIconState::Idle) => "resources/talky.png"@,
        (AppTheme::Colored, TrayIconState::Recording) => "resources/recording.png"@,
    }
}

/// The tray icon path for a theme and recording state.
pub fn get_icon_path(theme: AppTheme, state: TrayIconState) -> (r: &'static str)
    ensures
        r@ == spec_icon_path(theme, state),
{
    match (theme, state) {
        (AppTheme::Dark, TrayIconState::Idle) => "resources/tray_idle.png",
        (AppTheme::Dark, TrayIconState::Recording) => "resources/tray_recording.png",
        (AppTheme::Light, TrayIconState::Idle) => "resources/tray_idle_dark.png",
        (AppTheme::Light, TrayIconState::Recording) => "resources/tray_recording_dark.png",
        (AppTheme::Colored, TrayIconState::Idle) => "resources/talky.png",
        (AppTheme::Colored, TrayIconState::Recording) => "resources/recording.png",
    }
}

/// What the frontend may use on a platform.
pub struct PlatformCapabilities {
    pub speaker_capture: bool,
    pub meeting_detection: bool,
    pub clamshell_detection: bool,
    pub system_sleep_events: bool,
    pub apple_intelligence: bool,
    pub os: String,
}

impl PlatformCapabilities {
    /// The capability set of a named operating system; the Apple
    /// Intelligence flag additionally needs its processor family.
    pub fn for_os(os: &str, aarch64: bool) -> (r: PlatformCapabilities)
        ensures
            r.os@ == os@,
            os@ == "macos"@ ==> r.speaker_capture && r.meeting_detection
                && r.clamshell_detection && r.system_sleep_events && r.apple_intelligence
                == aarch64,
            os@ == "windows"@ ==> r.speaker_capture && !r.meeting_detection
                && !r.clamshell_detection && !r.system_sleep_events && !r.apple_intelligence,
            os@ != "macos"@ && os@ != "windows"@ ==> !r.speaker_capture
                && !r.meeting_detection && !r.clamshell_detection && !r.system_sleep_events
                && !r.apple_intelligence,
    {
        proof {
            reveal_strlit("macos");
            reveal_strlit("windows");
        }
        if crate::chars::str_chars_eq(os, "macos") {
            PlatformCapabilities {
                speaker_capture: true,
                meeting_detection: true,
                clamshell_detection: true,
                system_sleep_events: true,
                apple_intelligence: aarch64,
                os: os.to_owned(),
            }
        } else if crate::chars::str_chars_eq(os, "windows") {
            PlatformCapabilities {
                speaker_capture: true,
                meeting_detection: false,
                clamshell_detection: false,
                system_sleep_events: false,
                apple_intelligence: false,
                os: os.to_owned(),
            }
        } else {
            PlatformCapabilities {
                speaker_capture: false,
                meeting_detection: false,
                clamshell_detection: false,
                system_sleep_events: false,
                apple_intelligence: false,
                os: os.to_owned(),
            }
        }
    }
}

} // verus!
