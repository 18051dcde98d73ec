//! Choosing the compositor to drive: by name when one is configured,
//! otherwise the first supported compositor found running.

use vstd::prelude::*;

use super::{supported, supported_compositors, CompositorKind};
use crate::text::{lowercase, str_eq, to_lowercase};

verus! {

/// What detection decides next.
#[derive(Debug, Clone, Copy, PartialEq, Eq, Structural)]
pub enum Detection {
    /// Drive this compositor.
    Use(CompositorKind),
    /// Find out whether this compositor is running, then ask again with the
    /// answer appended to the answers so far.
    Probe(CompositorKind),
    /// The configured name names no supported compositor.
    Unsupported,
    /// No supported compositor is running.
    NoneRunning,
}

/// The supported compositor whose name is `name`, if any.
pub open spec fn kind_named(name: Seq<char>) -> Option<CompositorKind> {
    if name == CompositorKind::Hyprland.spec_name() {
        Some(CompositorKind::Hyprland)
    } else if name == CompositorKind::Niri.spec_name() {
        Some(CompositorKind::Niri)
    } else {
        None
    }
}

/// The first of the probed compositors that was found running, if any.
pub open spec fn first_running(running: Seq<bool>) -> Option<int> {
    if running.len() >= 1 && running[0] {
        Some(0)
    } else if running.len() >= 2 && running[1] {
        Some(1)
    } else {
        None
    }
}

/// The decision of detection, given the configured name (if any) and whether
/// each supported compositor was found running, in order, so far.
pub open spec fn detection(configured: Option<Seq<char>>, running: Seq<bool>) -> Detection {
    match configured {
        Some(name) => match kind_named(lowercase(name)) {
            Some(kind) => Detection::Use(kind),
            None => Detection::Unsupported,
        },
        None => match first_running(running) {
            Some(i) => Detection::Use(supported()[i]),
            None => if running.len() < supported().len() {
                Detection::Probe(supported()[running.len() as int])
            } else {
                Detection::NoneRunning
            },
        },
    }
}

/// The characters of the configured name, if one is configured.
pub open spec fn name_view(configured: Option<&str>) -> Option<Seq<char>> {
    match configured {
        Some(name) => Some(name@),
        None => None,
    }
}

/// Decides which compositor to drive. `configured` is the name the user
/// configured, if any, matched without regard to case; `running` holds, for
/// the supported compositors in order, whether each was found running.
/// Compositors are probed one at a time, and only until one is found.
pub fn detect(configured: Option<&str>, running: &[bool]) -> (res: Detection)
    ensures
        res == detection(name_view(configured), running@),
{
    match configured {
        Some(name) => {
            let wanted = to_lowercase(name);
            let kinds = supported_compositors();
            let mut i: usize = 0;
            while i < kinds.len()
                invariant
                    configured == Some(name),
                    wanted@ == lowercase(name@),
                    kinds@ == supported(),
                    i <= kinds.len(),
                    forall|j: int| 0 <= j < i ==> kinds@[j].spec_name() != wanted@,
                decreases kinds.len() - i,
            {
                let kind = kinds[i];
                if str_eq(kind.name(), wanted.as_str()) {
                    proof {
                        reveal_strlit("hyprland");
                        reveal_strlit("niri");
                        assert("hyprland"@[0] != "niri"@[0]);
                        assert(i == 0 || i == 1);

                    }
                    return Detection::Use(kind);
                }
                i = i + 1;
            }
            proof {
                assert(kinds@[0].spec_name() != wanted@);
                assert(kinds@[1].spec_name() != wanted@);
            }
            Detection::Unsupported
        },
        None => {
            let kinds = supported_compositors();
            let n = if running.len() < kinds.len() { running.len() } else { kinds.len() };
            let mut i: usize = 0;
            while i < n
                invariant
                    configured is None,
                    kinds@ == supported(),
                    n <= running@.len(),
                    n <= kinds.len(),
                    n == running@.len() || n == kinds.len(),
                    i <= n,
                    forall|j: int| 0 <= j < i ==> !running@[j],
                decreases n - i,
            {
                if running[i] {
                    assert(i == 0 || i == 1);

                    return Detection::Use(kinds[i]);
                }
                i = i + 1;
            }
            if n < kinds.len() {
                Detection::Probe(kinds[n])
            } else {
                Detection::NoneRunning
            }
        },
    }
}

} // verus!
