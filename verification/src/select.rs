//! Display backend auto-detection.
//!
//! Order: the `NOSIGNAL_BACKEND` override, then platform detection. On Linux the
//! desktop is identified via `XDG_CURRENT_DESKTOP` because GNOME owns display
//! config through its own API on both X11 and Wayland.

use crate::error::BackendError;
use crate::text::{contains, join3, occurs_in, same_text};
use vstd::prelude::*;

verus! {

/// The platform of the running program.
#[derive(Debug, Clone, Copy, PartialEq, Eq, Structural)]
pub enum Platform {
    Linux,
    Windows,
    Other,
}

/// A backend that can be connected.
#[derive(Debug, Clone, Copy, PartialEq, Eq, Structural)]
pub enum BackendKind {
    Mock,
    Gnome,
}

/// The backend with a name; the GNOME one exists on Linux only.
pub open spec fn named_backend(name: Seq<char>, platform: Platform) -> Option<BackendKind> {
    if name == "mock"@ {
        Some(BackendKind::Mock)
    } else if name == "gnome"@ && platform == Platform::Linux {
        Some(BackendKind::Gnome)
    } else {
        None
    }
}

/// Whether a result is the backend with a name, or says that there is none.
pub open spec fn selected(
    r: Result<BackendKind, BackendError>,
    name: Seq<char>,
    platform: Platform,
) -> bool {
    match named_backend(name, platform) {
        Some(kind) => r == Ok::<BackendKind, BackendError>(kind),
        None => r matches Err(BackendError::Unavailable(m)) && m@ == "unknown backend '"@ + name
            + "' (NOSIGNAL_BACKEND)"@,
    }
}

/// The backend with a name.
pub fn by_name(name: &str, platform: Platform) -> (r: Result<BackendKind, BackendError>)
    ensures
        selected(r, name@, platform),
{
    if same_text(name, "mock") {
        Ok(BackendKind::Mock)
    } else if same_text(name, "gnome") && platform == Platform::Linux {
        Ok(BackendKind::Gnome)
    } else {
        Err(
            BackendError::Unavailable(
                join3("unknown backend '", name, "' (NOSIGNAL_BACKEND)"),
            ),
        )
    }
}

/// Unicode upper case of a text, as `str::to_uppercase` computes it.
pub uninterp spec fn uppercase(s: Seq<char>) -> Seq<char>;

/// `str::to_uppercase`: the result is a function of the text alone, named
/// [`uppercase`]; nothing else is claimed of the Unicode mapping.
#[verifier::external_body]
fn to_uppercase(s: &str) -> (r: String)
    ensures
        r@ == uppercase(s@),
{
    s.to_uppercase()
}

/// Whether a result is the one for a desktop with the given name, in upper case
/// `upper`.
pub open spec fn detected(
    r: Result<BackendKind, BackendError>,
    desktop: Seq<char>,
    upper: Seq<char>,
    platform: Platform,
) -> bool {
    match platform {
        Platform::Linux => if occurs_in(upper, "GNOME"@) {
            r == Ok::<BackendKind, BackendError>(BackendKind::Gnome)
        } else {
            r matches Err(BackendError::Unavailable(m)) && m@
                == "no backend for this session yet (XDG_CURRENT_DESKTOP='"@ + desktop
                + "'); KDE, wlroots and X11 support arrive in M3 — set NOSIGNAL_BACKEND=mock to experiment"@
        },
        Platform::Windows => r matches Err(BackendError::Unavailable(m)) && m@
            == "the Windows backend arrives in M4 — set NOSIGNAL_BACKEND=mock to experiment"@,
        Platform::Other => r matches Err(BackendError::Unavailable(m)) && m@
            == "no display backend for this platform; see CONTRIBUTING.md"@,
    }
}

/// The backend for a desktop, given its name also in upper case.
pub fn by_desktop(desktop: &str, upper: &str, platform: Platform) -> (r: Result<
    BackendKind,
    BackendError,
>)
    ensures
        detected(r, desktop@, upper@, platform),
{
    match platform {
        Platform::Linux => if contains(upper, "GNOME") {
            Ok(BackendKind::Gnome)
        } else {
            Err(
                BackendError::Unavailable(
                    join3(
                        "no backend for this session yet (XDG_CURRENT_DESKTOP='",
                        desktop,
                        "'); KDE, wlroots and X11 support arrive in M3 — set NOSIGNAL_BACKEND=mock to experiment",
                    ),
                ),
            )
        },
        Platform::Windows => Err(
            BackendError::Unavailable(
                "the Windows backend arrives in M4 — set NOSIGNAL_BACKEND=mock to experiment".to_owned(),
            ),
        ),
        Platform::Other => Err(
            BackendError::Unavailable(
                "no display backend for this platform; see CONTRIBUTING.md".to_owned(),
            ),
        ),
    }
}

/// The backend for this session: the one that the override names, otherwise the
/// one for the desktop (empty when it has no name).
pub fn detect(name: Option<&str>, desktop: &str, platform: Platform) -> (r: Result<
    BackendKind,
    BackendError,
>)
    ensures
        match name {
            Some(name) => selected(r, name@, platform),
            None => detected(r, desktop@, uppercase(desktop@), platform),
        },
{
    match name {
        Some(name) => by_name(name, platform),
        None => by_desktop(desktop, to_uppercase(desktop).as_str(), platform),
    }
}

/// The mock backend can be had anywhere by its name, the GNOME one on Linux alone: by its
/// name, or where the name of the desktop has GNOME in it.
pub proof fn backends_are_had_where_they_run(
    by_name: Result<BackendKind, BackendError>,
    by_desktop: Result<BackendKind, BackendError>,
    name: Seq<char>,
    desktop: Seq<char>,
    upper: Seq<char>,
    platform: Platform,
)
    requires
        selected(by_name, name, platform),
        detected(by_desktop, desktop, upper, platform),
    ensures
        by_name == Ok::<BackendKind, BackendError>(BackendKind::Mock) <==> name == "mock"@,
        by_name == Ok::<BackendKind, BackendError>(BackendKind::Gnome) <==> name == "gnome"@
            && platform == Platform::Linux,
        by_name matches Err(e) ==> e is Unavailable,
        by_desktop == Ok::<BackendKind, BackendError>(BackendKind::Gnome) <==> platform
            == Platform::Linux && occurs_in(upper, "GNOME"@),
        by_desktop != Ok::<BackendKind, BackendError>(BackendKind::Mock),
        by_desktop matches Err(e) ==> e is Unavailable,
{
    reveal_strlit("mock");
    assert("mock"@.len() == 4);
    reveal_strlit("gnome");
    assert("gnome"@.len() == 5);
}

} // verus!
