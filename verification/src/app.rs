//! The interactive session: its state, the filter index, and the
//! dispatcher that turns user actions into state transitions and
//! document mutations.

use vstd::prelude::*;

use crate::ssh_config::{
    entries_view, spec_delete_text, spec_list_hosts, spec_matches, spec_upsert_text, EntryView,
    SshConfigFile, SshHostEntry,
};
use crate::text::{
    chars_of, lower_seq, lower_vec, parse_u16_chars, pop_char, push_char, render_u16,
    spec_dec_str, spec_parse_u16, spec_trim, string_of, trim_vec,
};
use crate::ui::UiAction;

verus! {

// ---------------------------------------------------------------------------
// Session state
// ---------------------------------------------------------------------------

/// The in-progress, not-yet-persisted field values held while the edit
/// form is open, with a cursor selecting which field receives input.
#[derive(Debug, Clone, PartialEq, Eq)]
pub struct FormData {
    /// True when editing an existing entry, false for a new one.
    pub is_editing: bool,
    pub pattern: String,
    pub hostname: String,
    pub user: String,
    pub port: String,
    /// Which field receives character input: 0 pattern, 1 hostname,
    /// 2 user, 3 port.
    pub current_field: usize,
}

/// What a pending confirmation is about.
#[derive(Debug, Clone, PartialEq, Eq)]
pub enum ConfirmContext {
    Delete { pattern: String },
}

/// The interaction mode: a closed set of variants, so that illegal
/// combinations of modal state cannot be represented.
#[derive(Debug, Clone, PartialEq, Eq)]
pub enum Mode {
    Normal,
    Filter,
    Confirm(ConfirmContext),
    EditForm(FormData),
}

/// What the outer loop should do after an action was handled.
#[derive(Debug, Clone, PartialEq, Eq)]
pub enum LoopControl {
    Continue,
    Exit,
    /// Hand the terminal to the connection client for this pattern, then
    /// resume browsing.
    Launch(String),
}

/// A validation failure, local to the edit form: the document is not
/// touched and the form keeps its draft.
#[derive(Debug, Clone, Copy, PartialEq, Eq)]
pub enum AppError {
    /// The port field is neither blank nor a number from 1 to 65535.
    InvalidPort,
}

/// The whole session state: the host list (refreshed from the document
/// after every mutation), the filtered index list, the selection, the
/// filter text and the interaction mode.
#[derive(Debug, Clone, PartialEq, Eq)]
pub struct AppState {
    pub hosts: Vec<SshHostEntry>,
    /// Indices into `hosts`, in original order: the rows on display.
    pub filtered_hosts: Vec<usize>,
    /// Clamped to the filtered list: within it while the list is
    /// non-empty, 0 otherwise.
    pub selected_index: usize,
    pub filter_text: String,
    pub mode: Mode,
    pub needs_full_redraw: bool,
}

/// The session invariant: every filtered index points into the host
/// list, the selection is clamped to the filtered list, and the form
/// cursor stays among the four fields.
pub open spec fn state_wf(s: AppState) -> bool {
    &&& forall|a: int| 0 <= a < s.filtered_hosts@.len() ==> (#[trigger] s.filtered_hosts@[a])
        < s.hosts@.len()
    &&& (s.filtered_hosts@.len() == 0 ==> s.selected_index == 0)
    &&& (s.filtered_hosts@.len() > 0 ==> s.selected_index < s.filtered_hosts@.len())
    &&& (s.mode matches Mode::EditForm(f) ==> f.current_field < 4)
}

// ---------------------------------------------------------------------------
// The filter index
// ---------------------------------------------------------------------------

/// `f` is the filter of `hs` under query `q`: a strictly increasing list
/// of indices into `hs` — a subsequence of the full index list in
/// original order — holding exactly the entries that match `q`.
pub open spec fn is_filter_of(f: Seq<usize>, hs: Seq<EntryView>, q: Seq<char>) -> bool {
    &&& forall|a: int, b: int| 0 <= a < b < f.len() ==> f[a] < f[b]
    &&& forall|a: int| 0 <= a < f.len() ==> (#[trigger] f[a]) < hs.len()
    &&& forall|i: int|
        0 <= i < hs.len() ==> ((exists|a: int| 0 <= a < f.len() && f[a] == i) <==> spec_matches(
            hs[i],
            q,
        ))
}

/// The selection after re-clamping to a list of `len` rows.
pub open spec fn spec_clamp(sel: int, len: int) -> int {
    if len == 0 {
        0
    } else if sel < len {
        sel
    } else {
        len - 1
    }
}

impl AppState {
    /// A fresh session over the given hosts: nothing filtered out, first
    /// row selected, browsing.
    pub fn new(hosts: Vec<SshHostEntry>) -> (r: Self)
        ensures
            r.hosts == hosts,
            r.filtered_hosts@.len() == hosts@.len(),
            forall|a: int| 0 <= a < hosts@.len() ==> (#[trigger] r.filtered_hosts@[a]) == a,
            r.selected_index == 0,
            r.filter_text@.len() == 0,
            r.mode == Mode::Normal,
            r.needs_full_redraw == false,
            state_wf(r),
    {
        let n = hosts.len();
        let mut filtered_hosts: Vec<usize> = Vec::new();
        let mut i: usize = 0;
        while i < n
            invariant
                0 <= i <= n,
                filtered_hosts@.len() == i,
                forall|a: int| 0 <= a < i ==> (#[trigger] filtered_hosts@[a]) == a,
            decreases n - i,
        {
            filtered_hosts.push(i);
            i = i + 1;
        }
        AppState {
            hosts,
            filtered_hosts,
            selected_index: 0,
            filter_text: String::new(),
            mode: Mode::Normal,
            needs_full_redraw: false,
        }
    }

    /// The entry the selection points at, if the filtered list is
    /// non-empty.
    pub fn selected_host(&self) -> (r: Option<&SshHostEntry>)
        ensures
            match r {
                Some(e) => self.selected_index < self.filtered_hosts@.len()
                    && self.filtered_hosts@[self.selected_index as int] < self.hosts@.len()
                    && *e == self.hosts@[self.filtered_hosts@[self.selected_index as int] as int],
                None => self.selected_index >= self.filtered_hosts@.len()
                    || self.filtered_hosts@[self.selected_index as int] >= self.hosts@.len(),
            },
    {
        if self.selected_index < self.filtered_hosts.len() {
            let idx = self.filtered_hosts[self.selected_index];
            if idx < self.hosts.len() {
                Some(&self.hosts[idx])
            } else {
                None
            }
        } else {
            None
        }
    }

    /// Recomputes the filtered list from the current hosts and filter
    /// text — a case-insensitive substring match over pattern, hostname
    /// and user — and re-clamps the selection.
    pub fn apply_filter(&mut self)
        ensures
            final(self).hosts == old(self).hosts,
            final(self).filter_text == old(self).filter_text,
            final(self).mode == old(self).mode,
            final(self).needs_full_redraw == old(self).needs_full_redraw,
            is_filter_of(
                final(self).filtered_hosts@,
                entries_view(old(self).hosts@),
                lower_seq(old(self).filter_text@),
            ),
            final(self).selected_index == spec_clamp(
                old(self).selected_index as int,
                final(self).filtered_hosts@.len() as int,
            ),
    {
        let qc = chars_of(self.filter_text.as_str());
        let ql = lower_vec(&qc);
        let qs = string_of(&ql);
        let mut filtered: Vec<usize> = Vec::new();
        let n = self.hosts.len();
        let mut i: usize = 0;
        while i < n
            invariant
                0 <= i <= n,
                n == self.hosts@.len(),
                qs@ == lower_seq(self.filter_text@),
                forall|a: int| 0 <= a < filtered@.len() ==> (#[trigger] filtered@[a]) < i,
                forall|a: int, b: int| 0 <= a < b < filtered@.len() ==> filtered@[a] < filtered@[b],
                forall|j: int|
                    0 <= j < i ==> ((exists|a: int|
                        0 <= a < filtered@.len() && filtered@[a] == j) <==> spec_matches(
                        entries_view(self.hosts@)[j],
                        qs@,
                    )),
            decreases n - i,
        {
            let m = self.hosts[i].matches(qs.as_str());
            proof {
                assert(entries_view(self.hosts@)[i as int] == self.hosts@[i as int]@);
            }
            if m {
                let ghost fp = filtered@;
                filtered.push(i);
                proof {
                    assert(filtered@[fp.len() as int] == i);
                    assert forall|j: int|
                        0 <= j < i + 1 implies ((exists|a: int|
                        0 <= a < filtered@.len() && filtered@[a] == j) <==> spec_matches(
                        entries_view(self.hosts@)[j],
                        qs@,
                    )) by {
                        if j < i {
                            if exists|a: int| 0 <= a < fp.len() && fp[a] == j {
                                let a = choose|a: int| 0 <= a < fp.len() && fp[a] == j;
                                assert(filtered@[a] == j);
                            }
                            if exists|a: int| 0 <= a < filtered@.len() && filtered@[a] == j {
                                let a = choose|a: int|
                                    0 <= a < filtered@.len() && filtered@[a] == j;
                                assert(a < fp.len());
                                assert(fp[a] == j);
                            }
                        }
                    }
                }
            } else {
                proof {
                    assert forall|j: int|
                        0 <= j < i + 1 implies ((exists|a: int|
                        0 <= a < filtered@.len() && filtered@[a] == j) <==> spec_matches(
                        entries_view(self.hosts@)[j],
                        qs@,
                    )) by {
                        if j == i {
                            if exists|a: int| 0 <= a < filtered@.len() && filtered@[a] == j {
                                let a = choose|a: int|
                                    0 <= a < filtered@.len() && filtered@[a] == j;
                                assert(filtered@[a] < i);
                            }
                        }
                    }
                }
            }
            i = i + 1;
        }
        self.filtered_hosts = filtered;
        let len = self.filtered_hosts.len();
        if len == 0 {
            self.selected_index = 0;
        } else if self.selected_index >= len {
            self.selected_index = len - 1;
        }
    }
}

/// A string whose trim is empty becomes absent; any other keeps its
/// untrimmed value.
pub fn nonempty(s: String) -> (r: Option<String>)
    ensures
        spec_trim(s@).len() == 0 ==> r is None,
        spec_trim(s@).len() > 0 ==> (r matches Some(v) && v@ == s@),
{
    let sc = chars_of(s.as_str());
    let t = trim_vec(&sc);
    if t.len() == 0 {
        None
    } else {
        Some(s)
    }
}

// ---------------------------------------------------------------------------
// The action dispatcher
// ---------------------------------------------------------------------------

/// A text with its last character removed; an empty text stays empty.
pub open spec fn spec_pop(s: Seq<char>) -> Seq<char> {
    if s.len() == 0 {
        s
    } else {
        s.drop_last()
    }
}

/// The draft after a character lands in the field under the cursor.
pub open spec fn form_step_char(f: FormData, f2: FormData, c: char) -> bool {
    &&& f2.is_editing == f.is_editing
    &&& f2.current_field == f.current_field
    &&& f2.pattern@ == (if f.current_field == 0 {
        f.pattern@.push(c)
    } else {
        f.pattern@
    })
    &&& f2.hostname@ == (if f.current_field == 1 {
        f.hostname@.push(c)
    } else {
        f.hostname@
    })
    &&& f2.user@ == (if f.current_field == 2 {
        f.user@.push(c)
    } else {
        f.user@
    })
    &&& f2.port@ == (if f.current_field == 3 {
        f.port@.push(c)
    } else {
        f.port@
    })
}

/// The draft after a backspace in the field under the cursor.
pub open spec fn form_step_pop(f: FormData, f2: FormData) -> bool {
    &&& f2.is_editing == f.is_editing
    &&& f2.current_field == f.current_field
    &&& f2.pattern@ == (if f.current_field == 0 {
        spec_pop(f.pattern@)
    } else {
        f.pattern@
    })
    &&& f2.hostname@ == (if f.current_field == 1 {
        spec_pop(f.hostname@)
    } else {
        f.hostname@
    })
    &&& f2.user@ == (if f.current_field == 2 {
        spec_pop(f.user@)
    } else {
        f.user@
    })
    &&& f2.port@ == (if f.current_field == 3 {
        spec_pop(f.port@)
    } else {
        f.port@
    })
}

/// Validation at submit: the port field, after trimming, is either blank
/// or a number from 1 to 65535.
pub open spec fn form_port_ok(f: FormData) -> bool {
    ||| spec_trim(f.port@).len() == 0
    ||| (spec_parse_u16(spec_trim(f.port@)) matches Some(p) && p >= 1)
}

/// The entry a valid form submits: fields trimmed, blank optional fields
/// absent, no unrecognized directives.
pub open spec fn form_entry(f: FormData) -> EntryView {
    EntryView {
        pattern: spec_trim(f.pattern@),
        hostname: if spec_trim(f.hostname@).len() == 0 {
            None
        } else {
            Some(spec_trim(f.hostname@))
        },
        user: if spec_trim(f.user@).len() == 0 {
            None
        } else {
            Some(spec_trim(f.user@))
        },
        port: if spec_trim(f.port@).len() == 0 {
            None
        } else {
            spec_parse_u16(spec_trim(f.port@))
        },
        other: Seq::empty(),
    }
}

/// The session after the host list was refreshed from the document text
/// `t`: hosts re-listed, the filter re-run over them with the filter text
/// kept, and the selection re-clamped.
pub open spec fn refreshed(pre: AppState, post: AppState, t: Seq<char>) -> bool {
    &&& entries_view(post.hosts@) == spec_list_hosts(t)
    &&& post.filter_text == pre.filter_text
    &&& is_filter_of(post.filtered_hosts@, entries_view(post.hosts@), lower_seq(pre.filter_text@))
    &&& post.selected_index == spec_clamp(
        pre.selected_index as int,
        post.filtered_hosts@.len() as int,
    )
}

/// Everything but mode, redraw flag and document untouched.
pub open spec fn core_same(pre: AppState, post: AppState) -> bool {
    &&& post.hosts == pre.hosts
    &&& post.filtered_hosts == pre.filtered_hosts
    &&& post.selected_index == pre.selected_index
    &&& post.filter_text == pre.filter_text
}

/// The entry the selection points at; meaningful while the filtered list
/// is non-empty.
pub open spec fn sel_entry(s: AppState) -> SshHostEntry {
    s.hosts@[s.filtered_hosts@[s.selected_index as int] as int]
}

/// The session state machine: what one action does to the session and to
/// the document text, and what the outer loop is told. `pre`/`tpre` are
/// state and document text before, `post`/`tpost` after, `r` the result.
pub open spec fn step_ok(
    pre: AppState,
    tpre: Seq<char>,
    a: UiAction,
    post: AppState,
    tpost: Seq<char>,
    r: Result<LoopControl, AppError>,
) -> bool {
    match a {
        UiAction::MoveUp => {
            &&& post == AppState {
                selected_index: if pre.selected_index >= 1 {
                    (pre.selected_index - 1) as usize
                } else {
                    0usize
                },
                ..pre
            }
            &&& tpost == tpre
            &&& r == Ok::<LoopControl, AppError>(LoopControl::Continue)
        },
        UiAction::MoveDown => {
            &&& post == AppState {
                selected_index: if pre.selected_index + 1 < pre.filtered_hosts@.len() {
                    (pre.selected_index + 1) as usize
                } else {
                    pre.selected_index
                },
                ..pre
            }
            &&& tpost == tpre
            &&& r == Ok::<LoopControl, AppError>(LoopControl::Continue)
        },
        UiAction::PageUp => {
            &&& post == AppState {
                selected_index: if pre.selected_index >= 10 {
                    (pre.selected_index - 10) as usize
                } else {
                    0usize
                },
                ..pre
            }
            &&& tpost == tpre
            &&& r == Ok::<LoopControl, AppError>(LoopControl::Continue)
        },
        UiAction::PageDown => {
            &&& post == AppState {
                selected_index: spec_clamp(
                    pre.selected_index + 10,
                    pre.filtered_hosts@.len() as int,
                ) as usize,
                ..pre
            }
            &&& tpost == tpre
            &&& r == Ok::<LoopControl, AppError>(LoopControl::Continue)
        },
        UiAction::BeginFilter => {
            &&& post.hosts == pre.hosts
            &&& post.filter_text@.len() == 0
            &&& post.mode == Mode::Filter
            &&& post.needs_full_redraw == pre.needs_full_redraw
            &&& is_filter_of(
                post.filtered_hosts@,
                entries_view(pre.hosts@),
                Seq::<char>::empty(),
            )
            &&& post.selected_index == spec_clamp(
                pre.selected_index as int,
                post.filtered_hosts@.len() as int,
            )
            &&& tpost == tpre
            &&& r == Ok::<LoopControl, AppError>(LoopControl::Continue)
        },
        UiAction::InputChar(c) => match pre.mode {
            Mode::Filter => {
                &&& post.hosts == pre.hosts
                &&& post.filter_text@ == pre.filter_text@.push(c)
                &&& post.mode == Mode::Filter
                &&& post.needs_full_redraw == pre.needs_full_redraw
                &&& is_filter_of(
                    post.filtered_hosts@,
                    entries_view(pre.hosts@),
                    lower_seq(post.filter_text@),
                )
                &&& post.selected_index == spec_clamp(
                    pre.selected_index as int,
                    post.filtered_hosts@.len() as int,
                )
                &&& tpost == tpre
                &&& r == Ok::<LoopControl, AppError>(LoopControl::Continue)
            },
            Mode::Confirm(ConfirmContext::Delete { pattern }) => {
                if c == 'y' || c == 'Y' {
                    &&& tpost == spec_delete_text(tpre, pattern@)
                    &&& refreshed(pre, post, tpost)
                    &&& post.mode == Mode::Normal
                    &&& post.needs_full_redraw == true
                    &&& r == Ok::<LoopControl, AppError>(LoopControl::Continue)
                } else if c == 'n' || c == 'N' {
                    &&& post == AppState { mode: Mode::Normal, needs_full_redraw: true, ..pre }
                    &&& tpost == tpre
                    &&& r == Ok::<LoopControl, AppError>(LoopControl::Continue)
                } else {
                    &&& post == pre
                    &&& tpost == tpre
                    &&& r == Ok::<LoopControl, AppError>(LoopControl::Continue)
                }
            },
            Mode::EditForm(f) => {
                &&& core_same(pre, post)
                &&& post.needs_full_redraw == pre.needs_full_redraw
                &&& (post.mode matches Mode::EditForm(f2) && form_step_char(f, f2, c))
                &&& tpost == tpre
                &&& r == Ok::<LoopControl, AppError>(LoopControl::Continue)
            },
            Mode::Normal => {
                &&& post == pre
                &&& tpost == tpre
                &&& r == Ok::<LoopControl, AppError>(LoopControl::Continue)
            },
        },
        UiAction::BackspaceFilter => match pre.mode {
            Mode::Filter => {
                &&& post.hosts == pre.hosts
                &&& post.filter_text@ == spec_pop(pre.filter_text@)
                &&& post.mode == Mode::Filter
                &&& post.needs_full_redraw == pre.needs_full_redraw
                &&& is_filter_of(
                    post.filtered_hosts@,
                    entries_view(pre.hosts@),
                    lower_seq(post.filter_text@),
                )
                &&& post.selected_index == spec_clamp(
                    pre.selected_index as int,
                    post.filtered_hosts@.len() as int,
                )
                &&& tpost == tpre
                &&& r == Ok::<LoopControl, AppError>(LoopControl::Continue)
            },
            Mode::EditForm(f) => {
                &&& core_same(pre, post)
                &&& post.needs_full_redraw == pre.needs_full_redraw
                &&& (post.mode matches Mode::EditForm(f2) && form_step_pop(f, f2))
                &&& tpost == tpre
                &&& r == Ok::<LoopControl, AppError>(LoopControl::Continue)
            },
            _ => {
                &&& post == pre
                &&& tpost == tpre
                &&& r == Ok::<LoopControl, AppError>(LoopControl::Continue)
            },
        },
        UiAction::ClearFilter => match pre.mode {
            Mode::Filter => {
                &&& post.hosts == pre.hosts
                &&& post.filter_text@.len() == 0
                &&& post.mode == Mode::Normal
                &&& post.needs_full_redraw == pre.needs_full_redraw
                &&& is_filter_of(
                    post.filtered_hosts@,
                    entries_view(pre.hosts@),
                    Seq::<char>::empty(),
                )
                &&& post.selected_index == spec_clamp(
                    pre.selected_index as int,
                    post.filtered_hosts@.len() as int,
                )
                &&& tpost == tpre
                &&& r == Ok::<LoopControl, AppError>(LoopControl::Continue)
            },
            Mode::Confirm(_) => {
                &&& post == AppState { mode: Mode::Normal, needs_full_redraw: true, ..pre }
                &&& tpost == tpre
                &&& r == Ok::<LoopControl, AppError>(LoopControl::Continue)
            },
            _ => {
                &&& post == pre
                &&& tpost == tpre
                &&& r == Ok::<LoopControl, AppError>(LoopControl::Continue)
            },
        },
        UiAction::EditSelected => {
            if pre.filtered_hosts@.len() > 0 {
                &&& core_same(pre, post)
                &&& post.needs_full_redraw == true
                &&& (post.mode matches Mode::EditForm(f) && {
                    let e = sel_entry(pre);
                    &&& f.is_editing == true
                    &&& f.current_field == 0
                    &&& f.pattern@ == e.pattern@
                    &&& f.hostname@ == (match e.hostname {
                        Some(h) => h@,
                        None => Seq::<char>::empty(),
                    })
                    &&& f.user@ == (match e.user {
                        Some(u) => u@,
                        None => Seq::<char>::empty(),
                    })
                    &&& f.port@ == (match e.port {
                        Some(p) => spec_dec_str(p as int),
                        None => Seq::<char>::empty(),
                    })
                })
                &&& tpost == tpre
                &&& r == Ok::<LoopControl, AppError>(LoopControl::Continue)
            } else {
                &&& post == pre
                &&& tpost == tpre
                &&& r == Ok::<LoopControl, AppError>(LoopControl::Continue)
            }
        },
        UiAction::NewHost => {
            &&& core_same(pre, post)
            &&& post.needs_full_redraw == true
            &&& (post.mode matches Mode::EditForm(f) && {
                &&& f.is_editing == false
                &&& f.current_field == 0
                &&& f.pattern@.len() == 0
                &&& f.hostname@.len() == 0
                &&& f.user@.len() == 0
                &&& f.port@.len() == 0
            })
            &&& tpost == tpre
            &&& r == Ok::<LoopControl, AppError>(LoopControl::Continue)
        },
        UiAction::DeleteSelected => {
            if pre.filtered_hosts@.len() > 0 {
                &&& core_same(pre, post)
                &&& post.needs_full_redraw == true
                &&& post.mode == Mode::Confirm(
                    ConfirmContext::Delete { pattern: sel_entry(pre).pattern },
                )
                &&& tpost == tpre
                &&& r == Ok::<LoopControl, AppError>(LoopControl::Continue)
            } else {
                &&& post == pre
                &&& tpost == tpre
                &&& r == Ok::<LoopControl, AppError>(LoopControl::Continue)
            }
        },
        UiAction::LaunchSelected => {
            &&& post == pre
            &&& tpost == tpre
            &&& (if pre.mode matches Mode::Confirm(_) {
                r == Ok::<LoopControl, AppError>(LoopControl::Continue)
            } else if pre.filtered_hosts@.len() > 0 {
                r == Ok::<LoopControl, AppError>(LoopControl::Launch(sel_entry(pre).pattern))
            } else {
                r == Ok::<LoopControl, AppError>(LoopControl::Continue)
            })
        },
        UiAction::FormNextField => match pre.mode {
            Mode::EditForm(f) => {
                &&& core_same(pre, post)
                &&& post.needs_full_redraw == pre.needs_full_redraw
                &&& (post.mode matches Mode::EditForm(f2) && {
                    &&& f2.is_editing == f.is_editing
                    &&& f2.pattern@ == f.pattern@
                    &&& f2.hostname@ == f.hostname@
                    &&& f2.user@ == f.user@
                    &&& f2.port@ == f.port@
                    &&& f2.current_field == (f.current_field + 1) % 4
                })
                &&& tpost == tpre
                &&& r == Ok::<LoopControl, AppError>(LoopControl::Continue)
            },
            _ => {
                &&& post == pre
                &&& tpost == tpre
                &&& r == Ok::<LoopControl, AppError>(LoopControl::Continue)
            },
        },
        UiAction::FormPrevField => match pre.mode {
            Mode::EditForm(f) => {
                &&& core_same(pre, post)
                &&& post.needs_full_redraw == pre.needs_full_redraw
                &&& (post.mode matches Mode::EditForm(f2) && {
                    &&& f2.is_editing == f.is_editing
                    &&& f2.pattern@ == f.pattern@
                    &&& f2.hostname@ == f.hostname@
                    &&& f2.user@ == f.user@
                    &&& f2.port@ == f.port@
                    &&& f2.current_field == (if f.current_field == 0 {
                        3int
                    } else {
                        f.current_field - 1
                    })
                })
                &&& tpost == tpre
                &&& r == Ok::<LoopControl, AppError>(LoopControl::Continue)
            },
            _ => {
                &&& post == pre
                &&& tpost == tpre
                &&& r == Ok::<LoopControl, AppError>(LoopControl::Continue)
            },
        },
        UiAction::FormSubmit => match pre.mode {
            Mode::EditForm(f) => {
                if form_port_ok(f) {
                    &&& tpost == spec_upsert_text(tpre, form_entry(f))
                    &&& refreshed(pre, post, tpost)
                    &&& post.mode == Mode::Normal
                    &&& post.needs_full_redraw == true
                    &&& r == Ok::<LoopControl, AppError>(LoopControl::Continue)
                } else {
                    &&& post == pre
                    &&& tpost == tpre
                    &&& r == Err::<LoopControl, AppError>(AppError::InvalidPort)
                }
            },
            _ => {
                &&& post == pre
                &&& tpost == tpre
                &&& r == Ok::<LoopControl, AppError>(LoopControl::Continue)
            },
        },
        UiAction::FormCancel => match pre.mode {
            Mode::EditForm(_) => {
                &&& post == AppState { mode: Mode::Normal, needs_full_redraw: true, ..pre }
                &&& tpost == tpre
                &&& r == Ok::<LoopControl, AppError>(LoopControl::Continue)
            },
            _ => {
                &&& post == pre
                &&& tpost == tpre
                &&& r == Ok::<LoopControl, AppError>(LoopControl::Continue)
            },
        },
        UiAction::Quit => {
            &&& post == pre
            &&& tpost == tpre
            &&& r == Ok::<LoopControl, AppError>(LoopControl::Exit)
        },
        UiAction::Noop => {
            &&& post == pre
            &&& tpost == tpre
            &&& r == Ok::<LoopControl, AppError>(LoopControl::Continue)
        },
    }
}

/// Handles one user action: consults the current mode for legality,
/// mutates session state and document as the state machine prescribes,
/// and tells the outer loop whether to continue, exit, or hand off to
/// the connection client. A validation failure is reported without
/// leaving the edit form or touching the document.
pub fn handle_action(
    action: UiAction,
    state: &mut AppState,
    ssh_cfg: &mut SshConfigFile,
) -> (r: Result<LoopControl, AppError>)
    requires
        state_wf(*old(state)),
    ensures
        state_wf(*final(state)),
        final(ssh_cfg).path@ == old(ssh_cfg).path@,
        step_ok(
            *old(state),
            old(ssh_cfg).text@,
            action,
            *final(state),
            final(ssh_cfg).text@,
            r,
        ),
{
    match action {
        UiAction::MoveUp => {
            if state.selected_index >= 1 {
                state.selected_index = state.selected_index - 1;
            }
            Ok(LoopControl::Continue)
        },
        UiAction::MoveDown => {
            let len = state.filtered_hosts.len();
            if len > 0 && state.selected_index < len - 1 {
                state.selected_index = state.selected_index + 1;
            }
            Ok(LoopControl::Continue)
        },
        UiAction::PageUp => {
            if state.selected_index >= 10 {
                state.selected_index = state.selected_index - 10;
            } else {
                state.selected_index = 0;
            }
            Ok(LoopControl::Continue)
        },
        UiAction::PageDown => {
            let len = state.filtered_hosts.len();
            if len == 0 {
                state.selected_index = 0;
            } else if len - 1 - state.selected_index >= 10 {
                state.selected_index = state.selected_index + 10;
            } else {
                state.selected_index = len - 1;
            }
            Ok(LoopControl::Continue)
        },
        UiAction::BeginFilter => {
            state.filter_text = String::new();
            state.apply_filter();
            state.mode = Mode::Filter;
            proof {
                assert(lower_seq(Seq::<char>::empty()) =~= Seq::<char>::empty());
            }
            Ok(LoopControl::Continue)
        },
        UiAction::InputChar(c) => {
            let mut m = Mode::Normal;
            core::mem::swap(&mut m, &mut state.mode);
            match m {
                Mode::Filter => {
                    push_char(&mut state.filter_text, c);
                    state.apply_filter();
                    state.mode = Mode::Filter;
                },
                Mode::Confirm(ConfirmContext::Delete { pattern }) => {
                    if c == 'y' || c == 'Y' {
                        ssh_cfg.delete_host(pattern.as_str());
                        state.hosts = ssh_cfg.list_hosts();
                        state.apply_filter();
                        state.mode = Mode::Normal;
                        state.needs_full_redraw = true;
                    } else if c == 'n' || c == 'N' {
                        state.mode = Mode::Normal;
                        state.needs_full_redraw = true;
                    } else {
                        state.mode = Mode::Confirm(ConfirmContext::Delete { pattern });
                    }
                },
                Mode::EditForm(mut f) => {
                    if f.current_field == 0 {
                        push_char(&mut f.pattern, c);
                    } else if f.current_field == 1 {
                        push_char(&mut f.hostname, c);
                    } else if f.current_field == 2 {
                        push_char(&mut f.user, c);
                    } else {
                        push_char(&mut f.port, c);
                    }
                    state.mode = Mode::EditForm(f);
                },
                Mode::Normal => {},
            }
            Ok(LoopControl::Continue)
        },
        UiAction::BackspaceFilter => {
            let mut m = Mode::Normal;
            core::mem::swap(&mut m, &mut state.mode);
            match m {
                Mode::Filter => {
                    pop_char(&mut state.filter_text);
                    state.apply_filter();
                    state.mode = Mode::Filter;
                },
                Mode::EditForm(mut f) => {
                    if f.current_field == 0 {
                        pop_char(&mut f.pattern);
                    } else if f.current_field == 1 {
                        pop_char(&mut f.hostname);
                    } else if f.current_field == 2 {
                        pop_char(&mut f.user);
                    } else {
                        pop_char(&mut f.port);
                    }
                    state.mode = Mode::EditForm(f);
                },
                other => {
                    state.mode = other;
                },
            }
            Ok(LoopControl::Continue)
        },
        UiAction::ClearFilter => {
            let mut m = Mode::Normal;
            core::mem::swap(&mut m, &mut state.mode);
            match m {
                Mode::Filter => {
                    state.filter_text = String::new();
                    state.apply_filter();
                    state.mode = Mode::Normal;
                    proof {
                        assert(lower_seq(Seq::<char>::empty()) =~= Seq::<char>::empty());
                    }
                },
                Mode::Confirm(_) => {
                    state.mode = Mode::Normal;
                    state.needs_full_redraw = true;
                },
                other => {
                    state.mode = other;
                },
            }
            Ok(LoopControl::Continue)
        },
        UiAction::EditSelected => {
            let form_opt: Option<FormData> = match state.selected_host() {
                Some(e) => Some(
                    FormData {
                        is_editing: true,
                        pattern: e.pattern.clone(),
                        hostname: match &e.hostname {
                            Some(h) => h.clone(),
                            None => String::new(),
                        },
                        user: match &e.user {
                            Some(u) => u.clone(),
                            None => String::new(),
                        },
                        port: match e.port {
                            Some(p) => {
                                let mut v: Vec<char> = Vec::new();
                                render_u16(p, &mut v);
                                string_of(&v)
                            },
                            None => String::new(),
                        },
                        current_field: 0,
                    },
                ),
                None => None,
            };
            match form_opt {
                Some(f) => {
                    state.mode = Mode::EditForm(f);
                    state.needs_full_redraw = true;
                },
                None => {},
            }
            Ok(LoopControl::Continue)
        },
        UiAction::NewHost => {
            state.mode = Mode::EditForm(
                FormData {
                    is_editing: false,
                    pattern: String::new(),
                    hostname: String::new(),
                    user: String::new(),
                    port: String::new(),
                    current_field: 0,
                },
            );
            state.needs_full_redraw = true;
            Ok(LoopControl::Continue)
        },
        UiAction::DeleteSelected => {
            let pat_opt: Option<String> = match state.selected_host() {
                Some(e) => Some(e.pattern.clone()),
                None => None,
            };
            match pat_opt {
                Some(pattern) => {
                    state.mode = Mode::Confirm(ConfirmContext::Delete { pattern });
                    state.needs_full_redraw = true;
                },
                None => {},
            }
            Ok(LoopControl::Continue)
        },
        UiAction::LaunchSelected => {
            let in_confirm = match &state.mode {
                Mode::Confirm(_) => true,
                _ => false,
            };
            if in_confirm {
                Ok(LoopControl::Continue)
            } else {
                match state.selected_host() {
                    Some(e) => Ok(LoopControl::Launch(e.pattern.clone())),
                    None => Ok(LoopControl::Continue),
                }
            }
        },
        UiAction::FormNextField => {
            let mut m = Mode::Normal;
            core::mem::swap(&mut m, &mut state.mode);
            match m {
                Mode::EditForm(mut f) => {
                    f.current_field = (f.current_field + 1) % 4;
                    state.mode = Mode::EditForm(f);
                },
                other => {
                    state.mode = other;
                },
            }
            Ok(LoopControl::Continue)
        },
        UiAction::FormPrevField => {
            let mut m = Mode::Normal;
            core::mem::swap(&mut m, &mut state.mode);
            match m {
                Mode::EditForm(mut f) => {
                    if f.current_field == 0 {
                        f.current_field = 3;
                    } else {
                        f.current_field = f.current_field - 1;
                    }
                    state.mode = Mode::EditForm(f);
                },
                other => {
                    state.mode = other;
                },
            }
            Ok(LoopControl::Continue)
        },
        UiAction::FormSubmit => {
            let mut m = Mode::Normal;
            core::mem::swap(&mut m, &mut state.mode);
            match m {
                Mode::EditForm(f) => {
                    let pc = chars_of(f.port.as_str());
                    let pt = trim_vec(&pc);
                    let mut valid = true;
                    let mut port_num: Option<u16> = None;
                    if pt.len() > 0 {
                        match parse_u16_chars(&pt) {
                            Some(p) => {
                                if p >= 1 {
                                    port_num = Some(p);
                                } else {
                                    valid = false;
                                }
                            },
                            None => {
                                valid = false;
                            },
                        }
                    }
                    if !valid {
                        state.mode = Mode::EditForm(f);
                        return Err(AppError::InvalidPort);
                    }
                    let patc = chars_of(f.pattern.as_str());
                    let patt = trim_vec(&patc);
                    let hc = chars_of(f.hostname.as_str());
                    let ht = trim_vec(&hc);
                    let uc = chars_of(f.user.as_str());
                    let ut = trim_vec(&uc);
                    let entry = SshHostEntry {
                        pattern: string_of(&patt),
                        hostname: if ht.len() == 0 {
                            None
                        } else {
                            Some(string_of(&ht))
                        },
                        user: if ut.len() == 0 {
                            None
                        } else {
                            Some(string_of(&ut))
                        },
                        port: port_num,
                        other: Vec::new(),
                    };
                    proof {
                        assert(entry@.other =~= Seq::<(Seq<char>, Seq<char>)>::empty());
                        assert(entry@ == form_entry(f));
                    }
                    ssh_cfg.upsert_host(&entry);
                    state.hosts = ssh_cfg.list_hosts();
                    state.apply_filter();
                    state.mode = Mode::Normal;
                    state.needs_full_redraw = true;
                },
                other => {
                    state.mode = other;
                },
            }
            Ok(LoopControl::Continue)
        },
        UiAction::FormCancel => {
            let mut m = Mode::Normal;
            core::mem::swap(&mut m, &mut state.mode);
            match m {
                Mode::EditForm(_) => {
                    state.mode = Mode::Normal;
                    state.needs_full_redraw = true;
                },
                other => {
                    state.mode = other;
                },
            }
            Ok(LoopControl::Continue)
        },
        UiAction::Quit => Ok(LoopControl::Exit),
        UiAction::Noop => Ok(LoopControl::Continue),
    }
}

} // verus!
