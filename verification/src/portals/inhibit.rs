//! The Inhibit portal: what an inhibition blocks, the session monitors and
//! the lock events that change their state.
use crate::idset::IdSet;
use crate::response::{OTHER, SUCCESS};
use crate::text::{concat, has_prefix, starts_with, str_eq, trim, trim_str};
use vstd::prelude::*;

verus! {

/// The session state sent to monitors: running.
pub const SESSION_RUNNING: u32 = 1;

/// What `systemd-inhibit` blocks for the portal's flags: `sleep` for
/// suspend (4), `idle` for idle (8), joined by `:`; `idle` when neither.
pub open spec fn inhibit_what_spec(flags: u32) -> Seq<char> {
    let sleep = flags & 4 != 0;
    let idle = flags & 8 != 0;
    if sleep && idle {
        "sleep:idle"@
    } else if sleep {
        "sleep"@
    } else {
        "idle"@
    }
}

/// What to block for the portal's flags.
pub fn inhibit_what(flags: u32) -> (out: String)
    ensures
        out@ == inhibit_what_spec(flags),
{
    let sleep = flags & 4 != 0;
    let idle = flags & 8 != 0;
    if sleep && idle {
        "sleep:idle".to_owned()
    } else if sleep {
        "sleep".to_owned()
    } else {
        "idle".to_owned()
    }
}

/// The reason given, or a default one.
pub fn inhibit_reason(reason: Option<String>) -> (out: String)
    ensures
        out@ == match reason {
            Some(r) => r@,
            None => "Application inhibit"@,
        },
{
    match reason {
        Some(r) => r,
        None => "Application inhibit".to_owned(),
    }
}

/// The arguments of `systemd-inhibit` for an inhibition.
pub fn inhibit_args(who: &str, why: &str, what: &str) -> (out: Vec<String>)
    ensures
        out@.map_values(|s: String| s@) == seq![
            "--what="@ + what@,
            "--who="@ + who@,
            "--why="@ + why@,
            "--mode=block"@,
            "sleep"@,
            "infinity"@,
        ],
{
    let mut out: Vec<String> = Vec::new();
    out.push(concat("--what=", what));
    out.push(concat("--who=", who));
    out.push(concat("--why=", why));
    out.push("--mode=block".to_owned());
    out.push("sleep".to_owned());
    out.push("infinity".to_owned());
    proof {
        assert(out@.map_values(|s: String| s@) =~= seq![
            "--what="@ + what@,
            "--who="@ + who@,
            "--why="@ + why@,
            "--mode=block"@,
            "sleep"@,
            "infinity"@,
        ]);
    }
    out
}

/// What a Hyprland event line says of the screen lock: `Some(true)` when
/// it locked, `Some(false)` when it unlocked, `None` otherwise.
pub fn lock_event(line: &str) -> (out: Option<bool>)
    ensures
        out == ({
            let t = trim(line@);
            if t == "lock"@ || has_prefix(t, "lock>>"@) {
                Some(true)
            } else if t == "unlock"@ || has_prefix(t, "unlock>>"@) {
                Some(false)
            } else {
                None::<bool>
            }
        }),
{
    let t = trim_str(line);
    let t = t.as_str();
    if str_eq(t, "lock") || starts_with(t, "lock>>") {
        Some(true)
    } else if str_eq(t, "unlock") || starts_with(t, "unlock>>") {
        Some(false)
    } else {
        None
    }
}

/// The monitor sessions created, each once.
pub struct Monitors {
    sessions: IdSet,
}

impl Monitors {
    pub closed spec fn sessions(&self) -> Set<Seq<char>> {
        self.sessions.ids()
    }

    /// No monitors.
    pub fn new() -> (out: Monitors)
        ensures
            out.sessions() == Set::<Seq<char>>::empty(),
    {
        Monitors { sessions: IdSet::new() }
    }

    /// `CreateMonitor` for a session: `SUCCESS` when it is new, `OTHER`
    /// when a monitor exists for it already.
    pub fn create(&mut self, session: &str) -> (out: u32)
        ensures
            out == if old(self).sessions().contains(session@) {
                OTHER
            } else {
                SUCCESS
            },
            final(self).sessions() == old(self).sessions().insert(session@),
    {
        if self.sessions.insert(session) {
            SUCCESS
        } else {
            OTHER
        }
    }

    /// Forgets sessions that are gone.
    pub fn drop_stale(&mut self, stale: &Vec<String>)
        ensures
            final(self).sessions() == old(self).sessions().difference(
                stale@.map_values(|s: String| s@).to_set(),
            ),
    {
        let ghost sv = stale@.map_values(|s: String| s@);
        let mut i: usize = 0;
        while i < stale.len()
            invariant
                i <= stale.len(),
                sv == stale@.map_values(|s: String| s@),
                self.sessions() == old(self).sessions().difference(sv.take(i as int).to_set()),
            decreases stale.len() - i,
        {
            let ghost before = self.sessions();
            self.sessions.remove(stale[i].as_str());
            proof {
                assert(sv.take(i + 1) =~= sv.take(i as int).push(sv[i as int]));
                sv.take(i as int).lemma_push_to_set_commute(sv[i as int]);
                assert(self.sessions() =~= old(self).sessions().difference(
                    sv.take(i + 1).to_set(),
                ));
            }
            i += 1;
        }
        proof {
            assert(sv.take(stale.len() as int) =~= sv);
        }
    }

    /// The sessions, to send a state change to.
    pub fn list(&self) -> (out: Vec<String>)
        ensures
            out@.map_values(|s: String| s@).to_set() == self.sessions(),
            out@.map_values(|s: String| s@).no_duplicates(),
    {
        self.sessions.to_vec()
    }
}

/// A second monitor for the same session is refused.
pub proof fn law_one_monitor_per_session(sessions: Set<Seq<char>>, session: Seq<char>)
    ensures
        sessions.insert(session).contains(session),
{
}

/// The interface version.
pub fn version() -> (out: u32)
    ensures
        out == 3,
{
    3
}

} // verus!
