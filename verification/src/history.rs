//! Squashing the repository's history to the newest snapshots.
use vstd::prelude::*;
use vstd::string::*;

use crate::sync::{three, two};
use crate::text::{chars_of, decimal, decimal_text, lines, lines_of, parse_unsigned, texts, unsigned_value};

verus! {

/// What is to be done next.
#[derive(Debug, Clone, Copy, PartialEq, Eq, Structural)]
pub enum SquashPhase {
    /// Count the commits.
    Count,
    /// Note the head commit, to return to it if the remote refuses.
    OldHead,
    /// Find the oldest commit to keep.
    Horizon,
    /// Make the new root from that commit's tree.
    Root,
    /// List the commits after it.
    Newer,
    /// Read the subject of the next commit.
    Subject,
    /// Make the next commit again, on top of the last.
    Rebuild,
    SoftReset,
    ForcePush,
    /// Return to the old head.
    Undo,
    Housekeeping,
    Done,
}

/// What came of the last phase.
#[derive(Debug)]
pub enum SquashEvent {
    /// What a git command wrote, without white space at its ends; `None` if it failed.
    Output { text: Option<String> },
    Answer { yes: bool },
}

/// A squash under way.
#[derive(Debug)]
pub struct SquashSession {
    pub phase: SquashPhase,
    /// How many snapshots to keep.
    pub keep: u64,
    pub old_head: String,
    pub horizon: String,
    /// The newest commit made so far.
    pub parent: String,
    /// The commits to make again; `done` of them are made.
    pub commits: Vec<String>,
    pub done: usize,
    pub subject: String,
    /// What the user is told at the end.
    pub note: Option<String>,
}

/// What a squash session holds.
pub struct SquashView {
    pub phase: SquashPhase,
    pub keep: u64,
    pub old_head: Seq<char>,
    pub horizon: Seq<char>,
    pub parent: Seq<char>,
    pub commits: Seq<Seq<char>>,
    pub done: int,
    pub subject: Seq<char>,
    pub note: Option<Seq<char>>,
}

impl View for SquashSession {
    type V = SquashView;

    open spec fn view(&self) -> SquashView {
        SquashView {
            phase: self.phase,
            keep: self.keep,
            old_head: self.old_head@,
            horizon: self.horizon@,
            parent: self.parent@,
            commits: texts(self.commits@),
            done: self.done as int,
            subject: self.subject@,
            note: crate::db::records::text_opt(self.note),
        }
    }
}

impl SquashView {
    /// What holds throughout a squash.
    pub open spec fn wf(self) -> bool {
        &&& 0 <= self.done <= self.commits.len()
        &&& (self.phase is Subject || self.phase is Rebuild) ==> self.done < self.commits.len()
        &&& self.keep == 0 ==> self.phase is Done && self.note is None
        &&& !(self.phase is Done) ==> self.note is None
    }

    /// The session in another phase.
    pub open spec fn at(self, phase: SquashPhase) -> SquashView {
        SquashView { phase, ..self }
    }

    /// The session at its end, with what the user is told.
    pub open spec fn finished(self, note: Option<Seq<char>>) -> SquashView {
        SquashView { phase: SquashPhase::Done, note, ..self }
    }
}

/// The notes that a squash can end with.
pub open spec fn reset_failed_note() -> Seq<char> {
    " (History retention: local branch reset failed; history left unchanged.)"@
}

/// The note where the remote refuses the new history.
pub open spec fn push_refused_note() -> Seq<char> {
    " (History retention: the remote refused the rewritten history -- a protected branch blocks force-pushes, or another device pushed concurrently. Vault sync itself succeeded; retention will retry next sync.)"@
}

/// The note where the history was squashed.
pub open spec fn squashed_note(keep: u64) -> Seq<char> {
    " History squashed to the most recent "@ + decimal(keep as nat) + " snapshots."@
}

/// The session at its start; keeping 0 snapshots means keeping all.
pub open spec fn squash_begun(keep: u64) -> SquashView {
    SquashView {
        phase: if keep == 0 {
            SquashPhase::Done
        } else {
            SquashPhase::Count
        },
        keep,
        old_head: Seq::empty(),
        horizon: Seq::empty(),
        parent: Seq::empty(),
        commits: Seq::empty(),
        done: 0,
        subject: Seq::empty(),
        note: None,
    }
}

/// The session with one commit fewer to make, or ready for the reset.
pub open spec fn onwards(s: SquashView) -> SquashView {
    if s.done < s.commits.len() {
        s.at(SquashPhase::Subject)
    } else {
        s.at(SquashPhase::SoftReset)
    }
}

/// The session after what a git command wrote.
pub open spec fn after_output(s: SquashView, text: Option<Seq<char>>) -> SquashView {
    match s.phase {
        SquashPhase::Count => match text {
            Some(t) => match unsigned_value(t, u64::MAX as nat) {
                Some(n) => if n <= s.keep {
                    s.finished(None)
                } else {
                    s.at(SquashPhase::OldHead)
                },
                None => s.finished(None),
            },
            None => s.finished(None),
        },
        SquashPhase::OldHead => match text {
            Some(t) => SquashView { old_head: t, ..s.at(SquashPhase::Horizon) },
            None => s.finished(None),
        },
        SquashPhase::Horizon => match text {
            Some(t) => SquashView { horizon: t, ..s.at(SquashPhase::Root) },
            None => s.finished(None),
        },
        SquashPhase::Root => match text {
            Some(t) => SquashView { parent: t, ..s.at(SquashPhase::Newer) },
            None => s.finished(None),
        },
        SquashPhase::Newer => match text {
            Some(t) => onwards(SquashView { commits: lines(t), done: 0, ..s }),
            None => s.finished(None),
        },
        SquashPhase::Subject => SquashView {
            subject: match text {
                Some(t) => t,
                None => "sync: auto-merge vault updates"@,
            },
            ..s.at(SquashPhase::Rebuild)
        },
        SquashPhase::Rebuild => match text {
            Some(t) => onwards(SquashView { parent: t, done: s.done + 1, ..s }),
            None => s.finished(None),
        },
        _ => s,
    }
}

/// The session after a yes or no.
pub open spec fn after_answer(s: SquashView, yes: bool) -> SquashView {
    match s.phase {
        SquashPhase::SoftReset => if yes {
            s.at(SquashPhase::ForcePush)
        } else {
            s.finished(Some(reset_failed_note()))
        },
        SquashPhase::ForcePush => if yes {
            s.at(SquashPhase::Housekeeping)
        } else {
            s.at(SquashPhase::Undo)
        },
        SquashPhase::Undo => s.finished(Some(push_refused_note())),
        SquashPhase::Housekeeping => s.finished(Some(squashed_note(s.keep))),
        _ => s,
    }
}

/// The session after an event. An event that does not belong to the phase changes nothing.
pub open spec fn after_squash(s: SquashView, e: SquashEvent) -> SquashView {
    match e {
        SquashEvent::Output { text } => after_output(s, crate::db::records::text_opt(text)),
        SquashEvent::Answer { yes } => after_answer(s, yes),
    }
}

/// Starts squashing the history to the newest `keep` snapshots; 0 keeps all.
pub fn maybe_squash_history(keep: u64) -> (s: SquashSession)
    ensures
        s@ == squash_begun(keep),
        s@.wf(),
{
    let s = SquashSession {
        phase: if keep == 0 {
            SquashPhase::Done
        } else {
            SquashPhase::Count
        },
        keep,
        old_head: String::new(),
        horizon: String::new(),
        parent: String::new(),
        commits: Vec::new(),
        done: 0,
        subject: String::new(),
        note: None,
    };
    assert(s@.commits =~= Seq::empty());
    s
}

impl SquashSession {
    fn finish(&mut self)
        ensures
            final(self)@ == old(self)@.finished(None),
    {
        self.phase = SquashPhase::Done;
        self.note = None;
    }

    fn go_on(&mut self)
        requires
            0 <= old(self)@.done <= old(self)@.commits.len(),
        ensures
            final(self)@ == onwards(old(self)@),
    {
        assert(self@.commits.len() == self.commits@.len());
        if self.done < self.commits.len() {
            self.phase = SquashPhase::Subject;
        } else {
            self.phase = SquashPhase::SoftReset;
        }
    }

    /// Takes what came of the current phase and moves on to the next one.
    pub fn step(&mut self, e: SquashEvent)
        requires
            old(self)@.wf(),
        ensures
            final(self)@ == after_squash(old(self)@, e),
            final(self)@.wf(),
    {
        match e {
            SquashEvent::Output { text } => self.take_output(text),
            SquashEvent::Answer { yes } => match self.phase {
                SquashPhase::SoftReset => if yes {
                    self.phase = SquashPhase::ForcePush;
                } else {
                    self.phase = SquashPhase::Done;
                    self.note =
                    Some(
                        " (History retention: local branch reset failed; history left unchanged.)".to_owned(),
                    );
                },
                SquashPhase::ForcePush => if yes {
                    self.phase = SquashPhase::Housekeeping;
                } else {
                    self.phase = SquashPhase::Undo;
                },
                SquashPhase::Undo => {
                    self.phase = SquashPhase::Done;
                    self.note =
                    Some(
                        " (History retention: the remote refused the rewritten history -- a protected branch blocks force-pushes, or another device pushed concurrently. Vault sync itself succeeded; retention will retry next sync.)".to_owned(),
                    );
                },
                SquashPhase::Housekeeping => {
                    let mut n = " History squashed to the most recent ".to_owned();
                    n.append(decimal_text(self.keep).as_str());
                    n.append(" snapshots.");
                    self.phase = SquashPhase::Done;
                    self.note = Some(n);
                },
                _ => {},
            },
        }
    }

    fn take_output(&mut self, text: Option<String>)
        requires
            old(self)@.wf(),
        ensures
            final(self)@ == after_output(old(self)@, crate::db::records::text_opt(text)),
            final(self)@.wf(),
    {
        assert(self@.commits.len() == self.commits@.len());
        match self.phase {
            SquashPhase::Count => match text {
                Some(t) => {
                    let v = chars_of(t.as_str());
                    match parse_unsigned(v.as_slice(), u64::MAX) {
                        Some(n) => if n <= self.keep {
                            self.finish();
                        } else {
                            self.phase = SquashPhase::OldHead;
                        },
                        None => self.finish(),
                    }
                },
                None => self.finish(),
            },
            SquashPhase::OldHead => match text {
                Some(t) => {
                    self.old_head = t;
                    self.phase = SquashPhase::Horizon;
                },
                None => self.finish(),
            },
            SquashPhase::Horizon => match text {
                Some(t) => {
                    self.horizon = t;
                    self.phase = SquashPhase::Root;
                },
                None => self.finish(),
            },
            SquashPhase::Root => match text {
                Some(t) => {
                    self.parent = t;
                    self.phase = SquashPhase::Newer;
                },
                None => self.finish(),
            },
            SquashPhase::Newer => match text {
                Some(t) => {
                    self.commits = lines_of(t.as_str());
                    self.done = 0;
                    self.go_on();
                },
                None => self.finish(),
            },
            SquashPhase::Subject => {
                self.subject =
                match text {
                    Some(t) => t,
                    None => "sync: auto-merge vault updates".to_owned(),
                };
                self.phase = SquashPhase::Rebuild;
            },
            SquashPhase::Rebuild => match text {
                Some(t) => {
                    let n: usize = self.commits.len();
                    assert(self.done < n);
                    self.parent = t;
                    self.done = self.done + 1;
                    self.go_on();
                },
                None => self.finish(),
            },
            _ => {},
        }
    }

    /// The arguments of the git command of the current phase.
    pub fn git_args(&self) -> (v: Vec<String>)
        requires
            self@.wf(),
        ensures
            texts(v@) == squash_words(self@),
    {
        assert(self@.commits.len() == self.commits@.len());
        match self.phase {
            SquashPhase::Count => three("rev-list", "--count", "HEAD"),
            SquashPhase::OldHead => two("rev-parse", "HEAD"),
            SquashPhase::Horizon => {
                let mut at = "HEAD~".to_owned();
                at.append(decimal_text(self.keep - 1).as_str());
                two("rev-parse", at.as_str())
            },
            SquashPhase::Root => {
                let mut tree = self.horizon.clone();
                tree.append("^{tree}");
                let mut m = "keystash: history squashed by retention policy (keeping last ".to_owned();
                m.append(decimal_text(self.keep).as_str());
                m.append(" snapshots)");
                crate::sync::four("commit-tree", tree.as_str(), "-m", m.as_str())
            },
            SquashPhase::Newer => {
                let mut range = self.horizon.clone();
                range.append("..HEAD");
                three("rev-list", "--reverse", range.as_str())
            },
            SquashPhase::Subject => crate::sync::four(
                "log",
                "-1",
                "--format=%s",
                self.commits[self.done].as_str(),
            ),
            SquashPhase::Rebuild => {
                let mut tree = self.commits[self.done].clone();
                tree.append("^{tree}");
                let v = vec![
                    "commit-tree".to_owned(),
                    tree,
                    "-p".to_owned(),
                    self.parent.clone(),
                    "-m".to_owned(),
                    self.subject.clone(),
                ];
                assert(texts(v@) =~= squash_words(self@));
                v
            },
            SquashPhase::SoftReset => three("reset", "--soft", self.parent.as_str()),
            SquashPhase::ForcePush => crate::sync::four(
                "push",
                "--force-with-lease",
                "origin",
                "main",
            ),
            SquashPhase::Undo => three("reset", "--soft", self.old_head.as_str()),
            SquashPhase::Housekeeping => three("gc", "--auto", "--quiet"),
            SquashPhase::Done => {
                let v: Vec<String> = Vec::new();
                assert(texts(v@) =~= Seq::empty());
                v
            },
        }
    }
}

/// The arguments of the git command of a phase.
pub open spec fn squash_words(s: SquashView) -> Seq<Seq<char>> {
    match s.phase {
        SquashPhase::Count => seq!["rev-list"@, "--count"@, "HEAD"@],
        SquashPhase::OldHead => seq!["rev-parse"@, "HEAD"@],
        SquashPhase::Horizon => seq!["rev-parse"@, "HEAD~"@ + decimal((s.keep - 1) as nat)],
        SquashPhase::Root => seq![
            "commit-tree"@,
            s.horizon + "^{tree}"@,
            "-m"@,
            "keystash: history squashed by retention policy (keeping last "@ + decimal(
                s.keep as nat,
            ) + " snapshots)"@,
        ],
        SquashPhase::Newer => seq!["rev-list"@, "--reverse"@, s.horizon + "..HEAD"@],
        SquashPhase::Subject => seq!["log"@, "-1"@, "--format=%s"@, s.commits[s.done]],
        SquashPhase::Rebuild => seq![
            "commit-tree"@,
            s.commits[s.done] + "^{tree}"@,
            "-p"@,
            s.parent,
            "-m"@,
            s.subject,
        ],
        SquashPhase::SoftReset => seq!["reset"@, "--soft"@, s.parent],
        SquashPhase::ForcePush => seq!["push"@, "--force-with-lease"@, "origin"@, "main"@],
        SquashPhase::Undo => seq!["reset"@, "--soft"@, s.old_head],
        SquashPhase::Housekeeping => seq!["gc"@, "--auto"@, "--quiet"@],
        SquashPhase::Done => Seq::empty(),
    }
}

/// Without a limit nothing is done, and nothing is said.
pub proof fn law_unlimited_history_is_left_alone()
    ensures
        squash_begun(0).phase is Done,
        squash_begun(0).note is None,
{
}

/// A history that is within the limit is left alone: the squash ends before any command but
/// the count, and says nothing.
pub proof fn law_short_history_is_left_alone(keep: u64, text: Seq<char>)
    requires
        unsigned_value(text, u64::MAX as nat) matches Some(n) && n <= keep,
    ensures
        after_output(squash_begun(keep), Some(text)) == squash_begun(keep).finished(None),
{
}

/// Where the remote refuses the new history, the next command returns to the old head.
pub proof fn law_refused_push_is_undone(s: SquashView)
    requires
        s.phase is ForcePush,
    ensures
        squash_words(after_answer(s, false)) == seq!["reset"@, "--soft"@, s.old_head],
{
}

} // verus!
