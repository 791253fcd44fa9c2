use vstd::prelude::*;
use crate::text::chars_eq;

verus! {

/// Most commands the history keeps.
pub const MAX_HISTORY_ENTRIES: usize = 64;

/// Command history with up/down navigation. While navigating, `index` is
/// the entry shown and `draft` the line that was being typed.
pub struct HistoryState {
    entries: Vec<Vec<char>>,
    index: Option<usize>,
    draft: Vec<char>,
}

/// Abstract state of the history.
pub ghost struct HistoryModel {
    pub entries: Seq<Seq<char>>,
    pub index: Option<int>,
    pub draft: Seq<char>,
}

impl View for HistoryState {
    type V = HistoryModel;

    closed spec fn view(&self) -> HistoryModel {
        HistoryModel {
            entries: Seq::new(self.entries@.len(), |i: int| self.entries@[i]@),
            index: match self.index {
                Some(i) => Some(i as int),
                None => None,
            },
            draft: self.draft@,
        }
    }
}

/// The history's invariant: at most 64 entries, none empty, no two adjacent
/// ones equal, and a navigation index inside the list.
pub open spec fn history_wf(h: HistoryModel) -> bool {
    &&& h.entries.len() <= MAX_HISTORY_ENTRIES
    &&& forall|i: int| 0 <= i < h.entries.len() ==> (#[trigger] h.entries[i]).len() > 0
    &&& forall|i: int| 0 <= i < h.entries.len() - 1 ==> #[trigger] h.entries[i] != h.entries[i + 1]
    &&& h.index matches Some(i) ==> 0 <= i < h.entries.len()
}

pub open spec fn reset_spec(h: HistoryModel) -> HistoryModel {
    HistoryModel { index: None, draft: Seq::empty(), ..h }
}

/// The history after the command `cmd` was run: an empty command is not
/// kept, nor one equal to the newest entry; the oldest entry makes room
/// when the history is full. Navigation ends either way.
pub open spec fn record_spec(h: HistoryModel, cmd: Seq<char>) -> HistoryModel {
    if cmd.len() == 0 {
        reset_spec(h)
    } else if h.entries.len() > 0 && h.entries.last() == cmd {
        reset_spec(h)
    } else {
        let kept = if h.entries.len() >= MAX_HISTORY_ENTRIES {
            h.entries.drop_first()
        } else {
            h.entries
        };
        reset_spec(HistoryModel { entries: kept.push(cmd), ..h })
    }
}

/// One step back in the history (Up): the first step saves the line being
/// typed and shows the newest entry; at the oldest entry it stays there.
pub open spec fn previous_spec(h: HistoryModel, current: Seq<char>) -> (HistoryModel, Option<Seq<char>>) {
    if h.entries.len() == 0 {
        (h, None)
    } else {
        let h2 = match h.index {
            None => HistoryModel {
                draft: current,
                index: Some(h.entries.len() - 1),
                ..h
            },
            Some(i) => if i == 0 {
                h
            } else {
                HistoryModel { index: Some(i - 1), ..h }
            },
        };
        (h2, Some(h2.entries[h2.index.unwrap()]))
    }
}

/// One step forward (Down): the next newer entry, or, past the newest, the
/// saved line, ending navigation. Nothing when not navigating.
pub open spec fn next_spec(h: HistoryModel) -> (HistoryModel, Option<Seq<char>>) {
    match h.index {
        None => (h, None),
        Some(i) => if i + 1 < h.entries.len() {
            (HistoryModel { index: Some(i + 1), ..h }, Some(h.entries[i + 1]))
        } else {
            (HistoryModel { index: None, ..h }, Some(h.draft))
        },
    }
}

impl HistoryState {
    pub fn new() -> (h: HistoryState)
        ensures
            h@ == (HistoryModel { entries: Seq::empty(), index: None, draft: Seq::empty() }),
            history_wf(h@),
    {
        let h = HistoryState { entries: Vec::new(), index: None, draft: Vec::new() };
        assert(h@.entries =~= Seq::<Seq<char>>::empty());
        h
    }

    pub fn reset_navigation(&mut self)
        requires
            history_wf(old(self)@),
        ensures
            final(self)@ == reset_spec(old(self)@),
            history_wf(final(self)@),
    {
        self.index = None;
        self.draft = Vec::new();
        assert(self@.entries =~= old(self)@.entries);
    }

    pub fn record(&mut self, command: &[char])
        requires
            history_wf(old(self)@),
        ensures
            final(self)@ == record_spec(old(self)@, command@),
            history_wf(final(self)@),
    {
        if command.len() == 0 {
            self.reset_navigation();
            return;
        }
        let n = self.entries.len();
        let should_push = if n == 0 {
            true
        } else {
            !chars_eq(self.entries[n - 1].as_slice(), command)
        };
        if should_push {
            let ghost old_entries = self@.entries;
            if self.entries.len() >= MAX_HISTORY_ENTRIES {
                self.entries.remove(0);
            }
            let mut copy: Vec<char> = Vec::new();
            crate::text::push_all(&mut copy, command);
            self.entries.push(copy);
            proof {
                let kept = if old_entries.len() >= MAX_HISTORY_ENTRIES {
                    old_entries.drop_first()
                } else {
                    old_entries
                };
                assert(self@.entries =~= kept.push(command@));
                let e = self@.entries;
                assert forall|i: int| 0 <= i < e.len() - 1 implies #[trigger] e[i] != e[i + 1] by {
                    if old_entries.len() >= MAX_HISTORY_ENTRIES {
                        if i + 1 < e.len() - 1 {
                            assert(old_entries[i + 1] != old_entries[i + 2]);
                        }
                    } else {
                        if i + 1 < e.len() - 1 {
                            assert(old_entries[i] != old_entries[i + 1]);
                        }
                    }
                }
            }
        }
        self.reset_navigation();
    }

    pub fn previous(&mut self, current_line: &[char]) -> (r: Option<Vec<char>>)
        requires
            history_wf(old(self)@),
        ensures
            ({
                let (h, s) = previous_spec(old(self)@, current_line@);
                &&& final(self)@ == h
                &&& match r {
                    Some(v) => s == Some(v@),
                    None => s is None,
                }
            }),
            history_wf(final(self)@),
    {
        if self.entries.len() == 0 {
            return None;
        }
        match self.index {
            None => {
                let mut d: Vec<char> = Vec::new();
                crate::text::push_all(&mut d, current_line);
                self.draft = d;
                self.index = Some(self.entries.len() - 1);
            },
            Some(i) => {
                if i > 0 {
                    self.index = Some(i - 1);
                }
            },
        }
        let i = match self.index {
            Some(i) => i,
            None => 0,
        };
        let entry = self.entries[i].clone();
        proof {
            assert(entry@ == self.entries@[i as int]@);
        }
        Some(entry)
    }

    pub fn next(&mut self) -> (r: Option<Vec<char>>)
        requires
            history_wf(old(self)@),
        ensures
            ({
                let (h, s) = next_spec(old(self)@);
                &&& final(self)@ == h
                &&& match r {
                    Some(v) => s == Some(v@),
                    None => s is None,
                }
            }),
            history_wf(final(self)@),
    {
        let index = match self.index {
            Some(i) => i,
            None => {
                return None;
            },
        };
        if index + 1 < self.entries.len() {
            self.index = Some(index + 1);
            let entry = self.entries[index + 1].clone();
            proof {
                assert(entry@ == self.entries@[index + 1]@);
            }
            return Some(entry);
        }
        self.index = None;
        Some(self.draft.clone())
    }
}

// ---------------------------------------------------------------------------
// Laws of the history

/// Up then Down gives back the line that was being typed.
pub proof fn law_up_then_down_restores_line(h: HistoryModel, current: Seq<char>)
    requires
        history_wf(h),
        h.index is None,
        h.entries.len() > 0,
    ensures
        next_spec(previous_spec(h, current).0).1 == Some(current),
        next_spec(previous_spec(h, current).0).0.index is None,
{
}

/// Recording a command makes it the newest entry (unless it is empty).
pub proof fn law_recorded_command_is_newest(h: HistoryModel, cmd: Seq<char>)
    requires
        history_wf(h),
        cmd.len() > 0,
    ensures
        record_spec(h, cmd).entries.last() == cmd,
        record_spec(h, cmd).entries.len() <= MAX_HISTORY_ENTRIES,
{
}

/// Recording the same command twice in a row keeps one copy.
pub proof fn law_repeat_is_not_duplicated(h: HistoryModel, cmd: Seq<char>)
    requires
        history_wf(h),
        cmd.len() > 0,
    ensures
        record_spec(record_spec(h, cmd), cmd).entries == record_spec(h, cmd).entries,
{
}

} // verus!
