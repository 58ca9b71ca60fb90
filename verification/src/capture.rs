//! The capture session: who may capture, whether a capture runs, and the
//! log of what was done. One coordinator owns the session; it asks the
//! session what to do, does it, and tells the session how it went.

use crate::device::strings;
use crate::text::{append_chars, chars_of, opt_text, string_of, trim, trimmed};
use vstd::prelude::*;

verus! {

/// A request to give or withdraw consent.
pub struct ConsentReq {
    pub accept: bool,
    pub user: Option<String>,
}

/// A request to start a capture.
pub struct StartReq {
    pub privacy_mask: Option<bool>,
    pub iface: Option<String>,
    pub bpf: Option<String>,
    pub ring_mb: Option<u32>,
    pub targets: Option<Vec<String>>,
}

/// The file that a capture is written to.
pub open spec fn capture_file() -> Seq<char> {
    "capture.pcap"@
}

// ---------------------------------------------------------------------------
// The capture command
// ---------------------------------------------------------------------------

/// The targets that count: those that are not blank, as they stand.
pub open spec fn named_targets(targets: Seq<Seq<char>>) -> Seq<Seq<char>>
    decreases targets.len(),
{
    if targets.len() == 0 {
        Seq::empty()
    } else if trim(targets.last()).len() == 0 {
        named_targets(targets.drop_last())
    } else {
        named_targets(targets.drop_last()).push(targets.last())
    }
}

/// The filter that selects the traffic of the targets: `host` and the
/// target, once for each, with `or` between them.
pub open spec fn targets_filter(targets: Seq<Seq<char>>) -> Seq<char>
    decreases targets.len(),
{
    if targets.len() == 0 {
        Seq::empty()
    } else if targets.len() == 1 {
        "host "@ + targets[0]
    } else {
        targets_filter(targets.drop_last()) + " or "@ + "host "@ + targets.last()
    }
}

/// The filter of a capture: the caller's own and that of the targets, both
/// in brackets with `and` between them where both are there.
pub open spec fn combined_filter(own: Seq<char>, of_targets: Seq<char>) -> Seq<char> {
    if own.len() > 0 && of_targets.len() > 0 {
        "("@ + own + ") and ("@ + of_targets + ")"@
    } else if own.len() > 0 {
        own
    } else {
        of_targets
    }
}

/// The command that captures on `iface` into the capture file, with the
/// filter in quotes behind it unless it is blank.
pub open spec fn command_for(iface: Seq<char>, filter: Seq<char>) -> Seq<char> {
    let base = "tcpdump -i "@ + iface + " -w "@ + capture_file();
    if trim(filter).len() == 0 {
        base
    } else {
        base + " \""@ + filter + "\""@
    }
}

/// The texts of an optional list.
pub open spec fn listed(targets: Option<Vec<String>>) -> Seq<Seq<char>> {
    match targets {
        Some(list) => strings(list@),
        None => Seq::empty(),
    }
}

/// The text of an optional string, or `default` where there is none.
pub open spec fn text_or(s: Option<String>, default: Seq<char>) -> Seq<char> {
    match s {
        Some(s) => s@,
        None => default,
    }
}

/// The command that a request to start asks for: on the interface it names,
/// or on any; filtered by its own filter and by its targets.
pub open spec fn capture_command(request: StartReq) -> Seq<char> {
    command_for(
        text_or(request.iface, "any"@),
        combined_filter(
            text_or(request.bpf, Seq::empty()),
            targets_filter(named_targets(listed(request.targets))),
        ),
    )
}

/// The targets of a request that are not blank.
pub fn capture_targets(request: &StartReq) -> (out: Vec<String>)
    ensures
        strings(out@) == named_targets(listed(request.targets)),
{
    let mut out: Vec<String> = Vec::new();
    proof {
        assert(strings(out@) =~= Seq::<Seq<char>>::empty());
    }
    match &request.targets {
        None => {},
        Some(list) => {
            let mut i: usize = 0;
            proof {
                assert(strings(list@).subrange(0, 0) =~= Seq::<Seq<char>>::empty());
            }
            while i < list.len()
                invariant
                    i <= list.len(),
                    strings(out@) == named_targets(strings(list@).subrange(0, i as int)),
                decreases list.len() - i,
            {
                proof {
                    let seen = strings(list@).subrange(0, i + 1);
                    assert(seen.drop_last() =~= strings(list@).subrange(0, i as int));
                    assert(seen.last() == list@[i as int]@);
                }
                let chars = chars_of(list[i].as_str());
                let clean = trimmed(chars.as_slice());
                if clean.len() > 0 {
                    let ghost before = strings(out@);
                    out.push(list[i].clone());
                    proof {
                        assert(strings(out@) =~= before.push(list@[i as int]@));
                    }
                }
                i += 1;
            }
            proof {
                assert(strings(list@).subrange(0, list.len() as int) =~= strings(list@));
            }
        },
    }
    out
}

/// The filter that selects the traffic of the targets.
fn filter_for(targets: &Vec<String>) -> (out: Vec<char>)
    ensures
        out@ == targets_filter(strings(targets@)),
{
    let mut out: Vec<char> = Vec::new();
    let mut i: usize = 0;
    proof {
        assert(strings(targets@).subrange(0, 0) =~= Seq::<Seq<char>>::empty());
    }
    while i < targets.len()
        invariant
            i <= targets.len(),
            out@ == targets_filter(strings(targets@).subrange(0, i as int)),
        decreases targets.len() - i,
    {
        let ghost before = out@;
        proof {
            let seen = strings(targets@).subrange(0, i + 1);
            assert(seen.drop_last() =~= strings(targets@).subrange(0, i as int));
            assert(seen.last() == targets@[i as int]@);
            assert(seen[0] == targets@[0]@);
        }
        if i > 0 {
            let or = chars_of(" or ");
            append_chars(&mut out, or.as_slice());
        }
        let host = chars_of("host ");
        append_chars(&mut out, host.as_slice());
        let target = chars_of(targets[i].as_str());
        append_chars(&mut out, target.as_slice());
        proof {
            if i > 0 {
                assert(out@ =~= before + " or "@ + "host "@ + targets@[i as int]@);
            } else {
                assert(before =~= Seq::<char>::empty());
                assert(out@ =~= "host "@ + targets@[0]@);
            }
        }
        i += 1;
    }
    proof {
        assert(strings(targets@).subrange(0, targets.len() as int) =~= strings(targets@));
    }
    out
}

/// The command that starts the capture which the request asks for.
pub fn build_capture_command(request: &StartReq) -> (out: String)
    ensures
        out@ == capture_command(*request),
{
    let iface = match &request.iface {
        Some(name) => chars_of(name.as_str()),
        None => chars_of("any"),
    };
    let own = match &request.bpf {
        Some(filter) => chars_of(filter.as_str()),
        None => Vec::new(),
    };
    let targets = capture_targets(request);
    let of_targets = filter_for(&targets);
    let mut filter: Vec<char> = Vec::new();
    if own.len() > 0 && of_targets.len() > 0 {
        filter.push('(');
        append_chars(&mut filter, own.as_slice());
        let middle = chars_of(") and (");
        append_chars(&mut filter, middle.as_slice());
        append_chars(&mut filter, of_targets.as_slice());
        filter.push(')');
        proof {
            reveal_strlit("(");
            reveal_strlit(")");
            assert(filter@ =~= "("@ + own@ + ") and ("@ + of_targets@ + ")"@);
        }
    } else if own.len() > 0 {
        append_chars(&mut filter, own.as_slice());
        proof {
            assert(filter@ =~= own@);
        }
    } else {
        append_chars(&mut filter, of_targets.as_slice());
        proof {
            assert(filter@ =~= of_targets@);
        }
    }
    let mut command: Vec<char> = chars_of("tcpdump -i ");
    append_chars(&mut command, iface.as_slice());
    let to = chars_of(" -w ");
    append_chars(&mut command, to.as_slice());
    let file = chars_of("capture.pcap");
    append_chars(&mut command, file.as_slice());
    let clean = trimmed(filter.as_slice());
    if clean.len() > 0 {
        let open = chars_of(" \"");
        append_chars(&mut command, open.as_slice());
        append_chars(&mut command, filter.as_slice());
        let close = chars_of("\"");
        append_chars(&mut command, close.as_slice());
    }
    proof {
        let base = "tcpdump -i "@ + iface@ + " -w "@ + capture_file();
        if clean.len() > 0 {
            assert(command@ =~= base + " \""@ + filter@ + "\""@);
        } else {
            assert(command@ =~= base);
        }
    }
    string_of(command.as_slice())
}

// ---------------------------------------------------------------------------
// The session
// ---------------------------------------------------------------------------

/// The state of capturing. The log only ever grows.
pub struct CaptureSession {
    pub consent: bool,
    pub running: bool,
    pub started_at: Option<i64>,
    pub last_file: Option<String>,
    pub privacy_mask: bool,
    pub audit: Vec<String>,
}

/// The session as plain values.
pub struct SessionView {
    pub consent: bool,
    pub running: bool,
    pub started_at: Option<i64>,
    pub last_file: Option<Seq<char>>,
    pub privacy_mask: bool,
    pub audit: Seq<Seq<char>>,
}

impl View for CaptureSession {
    type V = SessionView;

    open spec fn view(&self) -> SessionView {
        SessionView {
            consent: self.consent,
            running: self.running,
            started_at: self.started_at,
            last_file: opt_text(self.last_file),
            privacy_mask: self.privacy_mask,
            audit: strings(self.audit@),
        }
    }
}

/// What the coordinator is to do about a request to start.
pub enum StartDecision {
    /// Consent is missing: nothing may be started.
    Forbidden,
    /// A capture runs already: there is nothing to do.
    AlreadyRunning,
    /// Run this command, then report how it went.
    Spawn(String),
}

/// A line of the log: the stamp, a blank, and what was done.
pub open spec fn log_line(stamp: Seq<char>, what: Seq<char>) -> Seq<char> {
    stamp + seq![' '] + what
}

/// How a truth value is written.
pub open spec fn bool_text(b: bool) -> Seq<char> {
    if b {
        "true"@
    } else {
        "false"@
    }
}

/// `before` is the beginning of `after`: the log has only grown.
pub open spec fn grown_from(after: Seq<Seq<char>>, before: Seq<Seq<char>>) -> bool {
    before.len() <= after.len() && after.subrange(0, before.len() as int) == before
}

/// A line of the log.
fn line(stamp: &str, what: &str) -> (out: String)
    ensures
        out@ == log_line(stamp@, what@),
{
    let mut chars = chars_of(stamp);
    chars.push(' ');
    let tail = chars_of(what);
    append_chars(&mut chars, tail.as_slice());
    proof {
        assert(chars@ =~= log_line(stamp@, what@));
    }
    string_of(chars.as_slice())
}

impl CaptureSession {
    /// A session as it begins: consent is given, nothing runs, addresses
    /// are masked, and the log says so.
    pub fn new(stamp: &str) -> (session: CaptureSession)
        ensures
            session@ == (SessionView {
                consent: true,
                running: false,
                started_at: None,
                last_file: None,
                privacy_mask: true,
                audit: seq![log_line(stamp@, "consent preset to true"@)],
            }),
    {
        let mut audit: Vec<String> = Vec::new();
        audit.push(line(stamp, "consent preset to true"));
        let session = CaptureSession {
            consent: true,
            running: false,
            started_at: None,
            last_file: None,
            privacy_mask: true,
            audit,
        };
        proof {
            assert(session@.audit =~= seq![log_line(stamp@, "consent preset to true"@)]);
        }
        session
    }

    /// Gives or withdraws consent, and logs it.
    pub fn set_consent(&mut self, accept: bool, stamp: &str)
        ensures
            final(self)@ == (SessionView {
                consent: accept,
                audit: old(self)@.audit.push(
                    log_line(stamp@, "consent set to "@ + bool_text(accept)),
                ),
                ..old(self)@
            }),
            grown_from(final(self)@.audit, old(self)@.audit),
    {
        let ghost before = self@.audit;
        self.consent = accept;
        let mut what = chars_of("consent set to ");
        let value = if accept {
            chars_of("true")
        } else {
            chars_of("false")
        };
        append_chars(&mut what, value.as_slice());
        let text = string_of(what.as_slice());
        self.audit.push(line(stamp, text.as_str()));
        proof {
            assert(self@.audit =~= before.push(
                log_line(stamp@, "consent set to "@ + bool_text(accept)),
            ));
            assert(self@.audit.subrange(0, before.len() as int) =~= before);
        }
    }

    /// Decides about a request to start. Without consent nothing starts and
    /// nothing changes. With a capture running nothing changes either.
    /// Otherwise the masking is set as the request asks, masked where it
    /// does not say, and the command to run is handed out.
    pub fn plan_start(&mut self, request: &StartReq) -> (decision: StartDecision)
        ensures
            !old(self).consent ==> decision is Forbidden && *final(self) == *old(self),
            old(self).consent && old(self).running ==> decision is AlreadyRunning && *final(self)
                == *old(self),
            old(self).consent && !old(self).running ==> {
                &&& decision matches StartDecision::Spawn(command)
                &&& command@ == capture_command(*request)
                &&& final(self)@ == (SessionView {
                    privacy_mask: match request.privacy_mask {
                        Some(mask) => mask,
                        None => true,
                    },
                    ..old(self)@
                })
            },
    {
        if !self.consent {
            return StartDecision::Forbidden;
        }
        if self.running {
            return StartDecision::AlreadyRunning;
        }
        self.privacy_mask = match request.privacy_mask {
            Some(mask) => mask,
            None => true,
        };
        StartDecision::Spawn(build_capture_command(request))
    }

    /// Takes note of how the start went. A capture that started runs from
    /// `started_at` on, and the log says so; one that did not start leaves
    /// everything as it was.
    pub fn record_start(&mut self, started: bool, started_at: i64, stamp: &str)
        ensures
            started ==> final(self)@ == (SessionView {
                running: true,
                started_at: Some(started_at),
                audit: old(self)@.audit.push(log_line(stamp@, "capture started"@)),
                ..old(self)@
            }),
            !started ==> *final(self) == *old(self),
            grown_from(final(self)@.audit, old(self)@.audit),
    {
        let ghost before = self@.audit;
        proof {
            assert(before.subrange(0, before.len() as int) =~= before);
        }
        if started {
            self.running = true;
            self.started_at = Some(started_at);
            self.audit.push(line(stamp, "capture started"));
            proof {
                assert(self@.audit =~= before.push(log_line(stamp@, "capture started"@)));
                assert(self@.audit.subrange(0, before.len() as int) =~= before);
            }
        }
    }

    /// Whether there is a capture to stop.
    pub fn must_stop(&self) -> (r: bool)
        ensures
            r == self.running,
    {
        self.running
    }

    /// Takes note that the capture was stopped and written to `file`:
    /// nothing runs any more, `file` is the last file, and the log says so.
    /// With nothing running, everything stays as it was.
    pub fn record_stop(&mut self, stamp: &str, file: &str)
        ensures
            old(self).running ==> final(self)@ == (SessionView {
                running: false,
                last_file: Some(file@),
                audit: old(self)@.audit.push(log_line(stamp@, "capture stopped"@)),
                ..old(self)@
            }),
            !old(self).running ==> *final(self) == *old(self),
            grown_from(final(self)@.audit, old(self)@.audit),
    {
        let ghost before = self@.audit;
        proof {
            assert(before.subrange(0, before.len() as int) =~= before);
        }
        if self.running {
            self.running = false;
            self.last_file = Some(file.to_owned());
            self.audit.push(line(stamp, "capture stopped"));
            proof {
                assert(self@.audit =~= before.push(log_line(stamp@, "capture stopped"@)));
                assert(self@.audit.subrange(0, before.len() as int) =~= before);
            }
        }
    }
}

} // verus!
