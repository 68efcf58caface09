//! Remote-repository synchronization decisions: whether the community
//! skill source is enabled, where it lives, and whether it is stale.
//! The decisions are pure; the caller performs the clone, the pull and
//! the marker write they call for, and degrades gracefully — a failed
//! synchronization only means no remote skills for this pass.

use vstd::prelude::*;
use crate::eligibility::{spec_join_path, join_path};
use crate::text::{
    spec_trim, trim_str, spec_eq_ignore_ascii_case, eq_ignore_ascii_case,
};

verus! {

/// The fixed upstream of the community skill repository.
pub const OPEN_SKILLS_REPO_URL: &'static str = "https://github.com/besoeasy/open-skills";

/// The staleness marker file inside the synchronized directory.
pub const OPEN_SKILLS_SYNC_MARKER: &'static str = ".zeroclaw-open-skills-sync";

/// How old the marker may grow before a refresh: seven days.
pub const OPEN_SKILLS_SYNC_INTERVAL_SECS: u64 = 60 * 60 * 24 * 7;

/// The values of the toggle that disable synchronization.
pub open spec fn spec_falsy(v: Seq<char>) -> bool {
    let t = spec_trim(v);
    ||| spec_eq_ignore_ascii_case(t, "0"@)
    ||| spec_eq_ignore_ascii_case(t, "false"@)
    ||| spec_eq_ignore_ascii_case(t, "off"@)
    ||| spec_eq_ignore_ascii_case(t, "no"@)
}

/// Whether synchronization is enabled: an explicit toggle value counts
/// unless it is falsy, and without one the supplied default decides —
/// callers that must stay deterministic and network-free pass `false`.
pub open spec fn spec_open_skills_enabled(toggle: Option<Seq<char>>, default_enabled: bool) -> bool {
    match toggle {
        Some(v) => !spec_falsy(v),
        None => default_enabled,
    }
}

pub fn open_skills_enabled(toggle: Option<&String>, default_enabled: bool) -> (r: bool)
    ensures
        r == spec_open_skills_enabled(
            match toggle {
                Some(v) => Some(v@),
                None => None,
            },
            default_enabled,
        ),
{
    match toggle {
        Some(raw) => {
            let t = trim_str(raw.as_str());
            let falsy = eq_ignore_ascii_case(t.as_str(), "0") || eq_ignore_ascii_case(
                t.as_str(),
                "false",
            ) || eq_ignore_ascii_case(t.as_str(), "off") || eq_ignore_ascii_case(t.as_str(), "no");
            !falsy
        },
        None => default_enabled,
    }
}

/// The synchronized directory: an explicit non-blank override wins,
/// else a fixed subdirectory of the user's home, else nothing.
pub open spec fn spec_open_skills_dir(
    override_value: Option<Seq<char>>,
    home: Option<Seq<char>>,
) -> Option<Seq<char>> {
    match override_value {
        Some(v) => if spec_trim(v).len() > 0 {
            Some(spec_trim(v))
        } else {
            spec_home_open_skills(home)
        },
        None => spec_home_open_skills(home),
    }
}

pub open spec fn spec_home_open_skills(home: Option<Seq<char>>) -> Option<Seq<char>> {
    match home {
        Some(h) => Some(spec_join_path(h, "open-skills"@)),
        None => None,
    }
}

pub fn resolve_open_skills_dir(override_value: Option<&String>, home: Option<&String>) -> (r:
    Option<String>)
    ensures
        ({
            let spec = spec_open_skills_dir(
                match override_value {
                    Some(v) => Some(v@),
                    None => None,
                },
                match home {
                    Some(h) => Some(h@),
                    None => None,
                },
            );
            match r {
                Some(p) => spec == Some(p@),
                None => spec is None,
            }
        }),
{
    match override_value {
        Some(raw) => {
            let t = trim_str(raw.as_str());
            if t.as_str().unicode_len() > 0 {
                return Some(t);
            }
            match home {
                Some(h) => Some(join_path(h.as_str(), "open-skills")),
                None => None,
            }
        },
        None => match home {
            Some(h) => Some(join_path(h.as_str(), "open-skills")),
            None => None,
        },
    }
}

/// Whether the local copy is stale: an unreadable marker always is,
/// and otherwise its age is held against the refresh interval.
pub open spec fn spec_should_sync(marker_age_secs: Option<u64>) -> bool {
    match marker_age_secs {
        None => true,
        Some(age) => age >= OPEN_SKILLS_SYNC_INTERVAL_SECS,
    }
}

pub fn should_sync_open_skills(marker_age_secs: Option<u64>) -> (r: bool)
    ensures
        r == spec_should_sync(marker_age_secs),
{
    match marker_age_secs {
        None => true,
        Some(age) => age >= OPEN_SKILLS_SYNC_INTERVAL_SECS,
    }
}

/// What one synchronization pass does before skills are read.
#[derive(Debug, Clone, Copy, PartialEq, Eq, Structural)]
pub enum SyncAction {
    /// Synchronization is disabled: contribute no remote skills.
    Skip,
    /// No local copy yet: shallow-clone the upstream, and mark fresh on
    /// success; on failure contribute no remote skills this pass.
    Clone,
    /// The copy is stale and under version control: fast-forward pull,
    /// marking fresh on success and serving the stale copy on failure.
    Pull,
    /// The copy is stale but not under version control — a manually
    /// supplied directory is always up to date: only refresh the marker.
    RefreshMarkerOnly,
    /// The copy is fresh: serve it as it stands.
    UseExisting,
}

/// Decides one synchronization pass from the observed state: the
/// toggle, whether the directory exists, the marker's age, and whether
/// the directory carries version-control metadata.
pub fn plan_sync(
    enabled: bool,
    dir_exists: bool,
    marker_age_secs: Option<u64>,
    has_git_dir: bool,
) -> (r: SyncAction)
    ensures
        r == (if !enabled {
            SyncAction::Skip
        } else if !dir_exists {
            SyncAction::Clone
        } else if !spec_should_sync(marker_age_secs) {
            SyncAction::UseExisting
        } else if has_git_dir {
            SyncAction::Pull
        } else {
            SyncAction::RefreshMarkerOnly
        }),
{
    if !enabled {
        SyncAction::Skip
    } else if !dir_exists {
        SyncAction::Clone
    } else if !should_sync_open_skills(marker_age_secs) {
        SyncAction::UseExisting
    } else if has_git_dir {
        SyncAction::Pull
    } else {
        SyncAction::RefreshMarkerOnly
    }
}

/// Relies on `directories::UserDirs::new` and `UserDirs::home_dir`:
/// the user's home directory, when the system reports one that is
/// valid text.  The result depends on the machine's environment, so
/// nothing more is promised of it.
#[verifier::external_body]
pub(crate) fn home_dir() -> (r: Option<String>)
{
    directories::UserDirs::new().and_then(|d| d.home_dir().to_str().map(str::to_owned))
}

/// The user configuration document's path under a given home.
pub open spec fn spec_clawpilot_path(home: Option<Seq<char>>) -> Seq<char> {
    match home {
        Some(h) => spec_join_path(spec_join_path(h, ".clawpilot"@), "clawpilot.json"@),
        None => ".clawpilot/clawpilot.json"@,
    }
}

/// The user configuration document's path: under the home directory
/// when the system knows one, else a relative fallback.  Which home the
/// machine reports is outside the library's control, so the result is
/// only pinned to be the path for some such answer.
pub fn clawpilot_config_path() -> (r: String)
    ensures
        exists|home: Option<Seq<char>>| r@ == #[trigger] spec_clawpilot_path(home),
{
    match home_dir() {
        Some(h) => {
            let base = join_path(h.as_str(), ".clawpilot");
            let r = join_path(base.as_str(), "clawpilot.json");
            proof {
                assert(r@ == spec_clawpilot_path(Some(h@)));
            }
            r
        },
        None => {
            let r = ".clawpilot/clawpilot.json".to_owned();
            proof {
                assert(r@ == spec_clawpilot_path(None));
            }
            r
        },
    }
}

} // verus!
