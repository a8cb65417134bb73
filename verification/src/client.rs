//! How the game client is launched: what it takes from its command line and
//! settings before the window opens.
use crate::bindgen::UVec2;
use crate::std_wrappers::string_push_str;
use vstd::prelude::*;

verus! {

/// The side of the square frame that a headless client renders.
pub const HEADLESS_SIDE: u32 = 600;

/// What the client is launched with.
#[derive(Debug, PartialEq, Eq)]
pub struct ClientLaunch {
    /// Whether an audio stream is opened.
    pub open_audio: bool,
    /// The user id; where there is none a random user name is made up.
    pub user_id: Option<String>,
    /// The size of the frame a headless client renders, where it is headless.
    pub headless_size: Option<UVec2>,
    /// Whether the debugger is shown.
    pub show_debug: bool,
    /// Where the window is placed, where both coordinates are given.
    pub window_position: Option<(i32, i32)>,
    /// How large the window is, where both sides are given.
    pub window_size: Option<(u32, u32)>,
    /// Whether a server of another version is refused.
    pub fail_on_version_mismatch: bool,
}

/// Both values, where both are given.
pub open spec fn both<A, B>(a: Option<A>, b: Option<B>) -> Option<(A, B)> {
    match (a, b) {
        (Some(x), Some(y)) => Some((x, y)),
        _ => None,
    }
}

/// What the client is launched with, from its command line (`mute_audio`,
/// `user_id`, `headless`, `debugger`, the window's place and size, and
/// `dev_allow_version_mismatch`), the user id in its settings, whether the
/// debugger is asked for through the environment, and whether this is a
/// production build: the command line's user id comes before the settings'
/// one, the window is placed or sized only where both of its values are
/// given, and a production build always refuses another server version.
pub fn client_launch(
    mute_audio: bool,
    user_id: Option<String>,
    settings_user_id: Option<String>,
    headless: bool,
    debugger_in_environment: bool,
    debugger: bool,
    window_x: Option<i32>,
    window_y: Option<i32>,
    window_width: Option<u32>,
    window_height: Option<u32>,
    production: bool,
    dev_allow_version_mismatch: bool,
) -> (r: ClientLaunch)
    ensures
        r.open_audio == !mute_audio,
        r.user_id == (if user_id is Some { user_id } else { settings_user_id }),
        r.headless_size == (if headless { Some(UVec2 { x: HEADLESS_SIDE, y: HEADLESS_SIDE }) } else { None }),
        r.show_debug == (debugger_in_environment || debugger),
        r.window_position == both(window_x, window_y),
        r.window_size == both(window_width, window_height),
        r.fail_on_version_mismatch == (production || !dev_allow_version_mismatch),
{
    let user_id = match user_id {
        Some(u) => Some(u),
        None => settings_user_id,
    };
    let headless_size = if headless { Some(UVec2::new(HEADLESS_SIDE, HEADLESS_SIDE)) } else { None };
    let window_position = match (window_x, window_y) {
        (Some(x), Some(y)) => Some((x, y)),
        _ => None,
    };
    let window_size = match (window_width, window_height) {
        (Some(w), Some(h)) => Some((w, h)),
        _ => None,
    };
    ClientLaunch {
        open_audio: !mute_audio,
        user_id,
        headless_size,
        show_debug: debugger_in_environment || debugger,
        window_position,
        window_size,
        fail_on_version_mismatch: production || !dev_allow_version_mismatch,
    }
}

/// The window title with the statistics that are known: the frame rate and
/// the network statistics, each as text, in square brackets after the title.
pub open spec fn title_with_stats(title: Seq<char>, fps: Option<Seq<char>>, net: Option<Seq<char>>) -> Seq<char> {
    match (fps, net) {
        (None, None) => title,
        (Some(f), None) => title + " ["@ + f + "]"@,
        (None, Some(n)) => title + " ["@ + n + "]"@,
        (Some(f), Some(n)) => title + " ["@ + f + ", "@ + n + "]"@,
    }
}

/// The window title with the statistics that are known, as the title
/// updater shows it.
pub fn window_title_with_stats(title: &str, fps: Option<&str>, net: Option<&str>) -> (r: String)
    ensures
        r@ == title_with_stats(
            title@,
            match fps {
                Some(f) => Some(f@),
                None => None,
            },
            match net {
                Some(n) => Some(n@),
                None => None,
            },
        ),
{
    let mut r = title.to_owned();
    if fps.is_none() && net.is_none() {
        return r;
    }
    string_push_str(&mut r, " [");
    match fps {
        Some(f) => {
            string_push_str(&mut r, f);
        },
        None => {},
    }
    match (fps, net) {
        (Some(_), Some(_)) => {
            string_push_str(&mut r, ", ");
        },
        _ => {},
    }
    match net {
        Some(n) => {
            string_push_str(&mut r, n);
        },
        None => {},
    }
    string_push_str(&mut r, "]");
    r
}

} // verus!
