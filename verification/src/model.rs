//! Specification-level model of the phase-1-to-3 transformer.
//!
//! The executable machine in `p1to3` is specified, field for field, against
//! the step function `step_sp` below; the whole run is `transform_sp`, and
//! the public entry point promises exactly `output_sp`. The properties in
//! `props` are proved of these definitions.

use vstd::prelude::*;

use crate::common::{
    CVersion, CppVersion, IssueDesc, IssueModel, IssueType, LocationModel, Params,
};

verus! {

/// A source or output position: 1-origin line, 1-origin column counted in
/// code points (column 0 marks "before the first character of the line").
#[derive(Copy, Clone, Debug)]
pub struct SrcLoc {
    pub line: usize,
    pub col: usize,
}

/// One slot of a window buffer: a character, where it came from, and
/// whether it arrived inside a string or character literal.
#[derive(Copy, Clone, Debug)]
pub struct Entry {
    pub ch: char,
    pub loc: SrcLoc,
    pub quoted: bool,
}

/// A three-slot FIFO window; slot 2 is the most recent. An insertion
/// shifts every slot left and hands slot 0 out.
#[derive(Copy, Clone, Debug)]
pub struct Window {
    pub s0: Option<Entry>,
    pub s1: Option<Entry>,
    pub s2: Option<Entry>,
}

/// Which style of comment is open.
#[derive(Copy, Clone, Debug, PartialEq, Eq, Structural)]
pub enum CommentType {
    SingleLine,
    MultiLine,
}

/// Classification of the logical line being read: still skipping leading
/// whitespace, opened by `#`, or opened by anything else.
#[derive(Copy, Clone, Debug, PartialEq, Eq, Structural)]
pub enum LineState {
    SeekingHash,
    FoundHash,
    FoundNonHash,
}

/// A diagnostic as the machine records it, before a filename is attached.
#[derive(Copy, Clone, Debug)]
pub struct IssueRec {
    pub loc: Option<SrcLoc>,
    pub itype: IssueType,
    pub desc: IssueDesc,
}

/// The whole machine state. The executable `State` views to this.
#[verifier::ext_equal]
pub struct StateModel {
    pub lc_active: Option<(CommentType, SrcLoc)>,
    pub quot_active: Option<(char, SrcLoc)>,
    pub out: Seq<char>,
    pub non_multimerge: bool,
    pub cloc: SrcLoc,
    pub oloc: SrcLoc,
    pub last_add: Option<char>,
    pub issues: Seq<IssueRec>,
    pub map: Seq<(SrcLoc, SrcLoc)>,
    pub line_state: LineState,
    pub live: Window,
    pub com: Window,
}

/// Whitespace that collapses to a space: form feed, vertical tab, space,
/// tab. Excludes the newline.
pub open spec fn is_ws(c: char) -> bool {
    c == '\u{c}' || c == '\u{b}' || c == ' ' || c == '\t'
}

/// The character a trigraph `??c` stands for, if any.
pub open spec fn trigraph_subst(c: char) -> Option<char> {
    match c {
        '<' => Some('{'),
        '>' => Some('}'),
        '(' => Some('['),
        ')' => Some(']'),
        '=' => Some('#'),
        '/' => Some('\\'),
        '\'' => Some('^'),
        '!' => Some('|'),
        '-' => Some('~'),
        _ => None,
    }
}

pub open spec fn win_empty() -> Window {
    Window { s0: None, s1: None, s2: None }
}

pub open spec fn slot_ch(s: Option<Entry>) -> Option<char> {
    match s {
        Some(e) => Some(e.ch),
        None => None,
    }
}

pub open spec fn top_ch(w: Window) -> Option<char> {
    slot_ch(w.s2)
}

/// Shift a new slot in at position 2; what stood at position 0 falls out.
pub open spec fn shift_sp(w: Window, b: Option<Entry>) -> (Window, Option<Entry>) {
    (Window { s0: w.s1, s1: w.s2, s2: b }, w.s0)
}

/// Overwrite the most recent slot.
pub open spec fn rep1_sp(w: Window, b: Option<Entry>) -> Window {
    Window { s0: w.s0, s1: w.s1, s2: b }
}

/// Consume the two most recent slots and write one in their place.
pub open spec fn rep2_sp(w: Window, b: Option<Entry>) -> Window {
    Window { s0: None, s1: w.s0, s2: b }
}

/// Delete the most recent slot.
pub open spec fn del_sp(w: Window) -> Window {
    Window { s0: None, s1: w.s0, s2: w.s1 }
}

/// The window the machine is writing into: the comment buffer while a
/// comment is open, the live buffer otherwise.
pub open spec fn cur_of(st: StateModel) -> Window {
    if st.lc_active is Some {
        st.com
    } else {
        st.live
    }
}

pub open spec fn set_cur(st: StateModel, w: Window) -> StateModel {
    if st.lc_active is Some {
        StateModel { com: w, ..st }
    } else {
        StateModel { live: w, ..st }
    }
}

/// How an insertion updates the line classification, from the window as it
/// stands before the shift. A newline on top resets the classification;
/// early in a line (slot 0 still empty) the top character classifies it,
/// where two question marks are withheld because they may still begin a
/// trigraph whose replacement is `#`.
pub open spec fn ls_update(st: StateModel, w: Window) -> LineState {
    if top_ch(w) == Some('\n') {
        if st.quot_active is None && st.lc_active is None {
            LineState::SeekingHash
        } else {
            LineState::FoundNonHash
        }
    } else if w.s0 is None && w.s2 is Some && st.line_state == LineState::SeekingHash {
        let c2 = w.s2.unwrap().ch;
        if is_ws(c2) {
            st.line_state
        } else if c2 == '#' {
            LineState::FoundHash
        } else if c2 != '?' || (w.s1 is Some && w.s1.unwrap().ch != '?' && w.s1.unwrap().ch
            != '\n') {
            LineState::FoundNonHash
        } else {
            st.line_state
        }
    } else {
        st.line_state
    }
}

/// Predict, from the most recent anchor, where source position `sloc`
/// should fall in the output if nothing but plain copying happened since:
/// same source line advances the column, a later source line advances the
/// line and restarts at column 1.
pub open spec fn predict_sp(lm: (SrcLoc, SrcLoc), sloc: SrcLoc) -> SrcLoc {
    if lm.0.line != sloc.line {
        SrcLoc {
            line: (lm.1.line + (sloc.line - lm.0.line)) as usize,
            col: (1 + sloc.col - 1) as usize,
        }
    } else {
        SrcLoc { line: lm.1.line, col: (lm.1.col + sloc.col - lm.0.col) as usize }
    }
}

/// Append an anchor only where extrapolation from the previous one would
/// not land on the observed output position.
pub open spec fn map_push_sp(
    m: Seq<(SrcLoc, SrcLoc)>,
    sloc: SrcLoc,
    oloc: SrcLoc,
) -> Seq<(SrcLoc, SrcLoc)> {
    if m.len() == 0 {
        m.push((sloc, oloc))
    } else {
        let p = predict_sp(m.last(), sloc);
        if p.line == oloc.line && p.col == oloc.col {
            m
        } else {
            m.push((sloc, oloc))
        }
    }
}

/// Emit the entry that fell out of the live window: rewrite a bare newline
/// of a non-directive line to a space, collapse whitespace runs, remove a
/// trailing space before a newline, and keep characters that arrived
/// inside a literal exactly as they came. Characters fall silently while a
/// comment is open. The very first emission is exempt from the
/// newline-to-space rewrite so that the output always opens with the
/// primed newline.
pub open spec fn emit_sp(st: StateModel, e: Entry) -> StateModel {
    if st.lc_active is Some {
        st
    } else {
        let c0 = if st.line_state == LineState::FoundNonHash && e.ch == '\n' && st.last_add
            is Some {
            ' '
        } else {
            e.ch
        };
        if e.quoted || (((st.last_add != Some(' ') && st.last_add != Some('\n')) || !is_ws(c0)) && (
        c0 != '\n' || st.last_add != Some('\n'))) {
            let c1 = if is_ws(c0) && !e.quoted {
                ' '
            } else {
                c0
            };
            if c1 == '\n' && st.last_add == Some(' ') {
                StateModel {
                    out: st.out.drop_last().push(c1),
                    oloc: SrcLoc { line: (st.oloc.line + 1) as usize, col: 0 },
                    last_add: Some(c1),
                    ..st
                }
            } else {
                let oloc1 = SrcLoc { line: st.oloc.line, col: (st.oloc.col + 1) as usize };
                let oloc2 = if c1 == '\n' {
                    SrcLoc { line: (oloc1.line + 1) as usize, col: 0 }
                } else {
                    oloc1
                };
                let map2 = if c1 != '\n' && c1 != ' ' {
                    map_push_sp(st.map, e.loc, oloc1)
                } else {
                    st.map
                };
                StateModel { out: st.out.push(c1), oloc: oloc2, last_add: Some(c1), map: map2, ..st }
            }
        } else {
            st
        }
    }
}

/// Insert into the current window: update the line classification, shift,
/// and emit whatever fell out.
pub open spec fn insert_sp(st: StateModel, b: Option<Entry>) -> StateModel {
    let w = cur_of(st);
    let ls1 = ls_update(st, w);
    let st1 = set_cur(
        StateModel { line_state: ls1, non_multimerge: false, ..st },
        Window { s0: w.s1, s1: w.s2, s2: b },
    );
    match w.s0 {
        Some(e) => emit_sp(st1, e),
        None => st1,
    }
}

/// Flush the current window through three empty insertions.
pub open spec fn drain_sp(st: StateModel) -> StateModel {
    insert_sp(insert_sp(insert_sp(st, None), None), None)
}

/// Close a single-line comment: its buffered text is discarded and
/// emission resumes.
pub open spec fn end_comment_sp(st: StateModel) -> StateModel {
    StateModel { lc_active: None, ..drain_sp(st) }
}

/// Whether the quote character on top of `b` closes the literal: not when
/// the preceding character is a lone backslash; a doubled backslash leaves
/// the quote free to close. The window looks no further than two back.
pub open spec fn quote_closes(w: Window) -> bool {
    match w.s2 {
        Some(e2) => e2.ch != '\\' || (w.s1 is Some && w.s1.unwrap().ch == '\\'),
        None => match w.s1 {
            Some(e1) => e1.ch != '\\',
            None => true,
        },
    }
}

pub open spec fn push_issue(
    st: StateModel,
    loc: Option<SrcLoc>,
    itype: IssueType,
    desc: IssueDesc,
) -> StateModel {
    StateModel { issues: st.issues.push(IssueRec { loc: loc, itype: itype, desc: desc }), ..st }
}

/// Whether trigraphs, though possibly recognized, are left untranslated:
/// either the version no longer admits them or translation is off.
pub open spec fn trigraphs_ignored(p: Params) -> bool {
    p.version.spec_ver_ge(CVersion::Max, CppVersion::Cpp17) || !p.trigraphs
}

/// Recognize a comment boundary, or insert the character. Runs only for
/// characters that are not a newline and did not complete a trigraph.
pub open spec fn comment_or_insert_sp(p: Params, st: StateModel, b: char) -> StateModel {
    if st.quot_active is None && st.lc_active is None && top_ch(st.live) == Some('/') && b == '/'
        && p.version.spec_ver_ge(CVersion::C99, CppVersion::Min) {
        let com_loc = st.live.s2.unwrap().loc;
        StateModel {
            lc_active: Some((CommentType::SingleLine, com_loc)),
            live: rep1_sp(st.live, Some(Entry { ch: ' ', loc: com_loc, quoted: false })),
            non_multimerge: false,
            ..st
        }
    } else if st.quot_active is None && st.lc_active is None && top_ch(st.live) == Some('/') && b
        == '*' {
        let com_loc = st.live.s2.unwrap().loc;
        StateModel {
            lc_active: Some((CommentType::MultiLine, com_loc)),
            live: rep1_sp(st.live, Some(Entry { ch: ' ', loc: com_loc, quoted: false })),
            non_multimerge: false,
            ..st
        }
    } else if st.quot_active is None && (match st.lc_active {
        Some((k, _)) => k == CommentType::MultiLine,
        None => false,
    }) && top_ch(st.com) == Some('*') && b == '/' {
        StateModel { lc_active: None, com: win_empty(), ..st }
    } else {
        insert_sp(
            st,
            Some(Entry { ch: b, loc: st.cloc, quoted: st.quot_active is Some && b != '\n' }),
        )
    }
}

/// Whether the incoming character completes a trigraph: two question
/// marks stand in the live window, the character selects a replacement,
/// and no comment or literal is open. The literal test looks at the state
/// before the character itself is read as a quote.
pub open spec fn tri_fires(st: StateModel, b: char) -> bool {
    st.lc_active is None && st.quot_active is None && slot_ch(st.live.s1) == Some('?') && slot_ch(
        st.live.s2,
    ) == Some('?') && trigraph_subst(b) is Some
}

/// Feed one character through the machine.
pub open spec fn step_sp(p: Params, st: StateModel, b: char) -> StateModel {
    let st = StateModel {
        cloc: SrcLoc { line: st.cloc.line, col: (st.cloc.col + 1) as usize },
        ..st
    };
    if tri_fires(st, b) && !trigraphs_ignored(p) {
        let tri_loc = st.live.s1.unwrap().loc;
        let st = if p.wtrigraphs {
            push_issue(st, Some(tri_loc), IssueType::Warning, IssueDesc::TrigraphPresent(b))
        } else {
            st
        };
        StateModel {
            live: rep2_sp(
                st.live,
                Some(Entry { ch: trigraph_subst(b).unwrap(), loc: tri_loc, quoted: false }),
            ),
            non_multimerge: false,
            ..st
        }
    } else {
        step_rest_sp(p, st, b, tri_fires(st, b))
    }
}

/// The untranslated part of a step: track quotes, then handle the
/// newline, ignored-trigraph, comment and plain cases.
pub open spec fn step_rest_sp(p: Params, st: StateModel, b: char, tri: bool) -> StateModel {
    let st = if st.lc_active is None {
        match st.quot_active {
            None => if b == '\'' || b == '"' {
                StateModel { quot_active: Some((b, st.cloc)), ..st }
            } else {
                st
            },
            Some((q, _)) => if q == b && quote_closes(st.live) {
                StateModel { quot_active: None, ..st }
            } else {
                st
            },
        }
    } else {
        st
    };
    if b == '\n' {
        if top_ch(cur_of(st)) != Some('\\') {
            let st = if (match st.lc_active {
                Some((k, _)) => k == CommentType::SingleLine,
                None => false,
            }) {
                end_comment_sp(st)
            } else {
                st
            };
            let st = match st.quot_active {
                Some((q, qloc)) => StateModel {
                    quot_active: None,
                    ..push_issue(
                        st,
                        Some(qloc),
                        IssueType::Warning,
                        IssueDesc::QuotationMarkNotClosed(q),
                    )
                },
                None => st,
            };
            let st = StateModel {
                cloc: SrcLoc { line: (st.cloc.line + 1) as usize, col: 0 },
                ..st
            };
            insert_sp(st, Some(Entry { ch: '\n', loc: st.cloc, quoted: false }))
        } else if !st.non_multimerge {
            let st = set_cur(st, del_sp(cur_of(st)));
            StateModel {
                non_multimerge: true,
                cloc: SrcLoc { line: (st.cloc.line + 1) as usize, col: 0 },
                ..st
            }
        } else {
            // a newline right after a suppressed splice: taken in as it
            // stands, without advancing the line count
            insert_sp(st, Some(Entry { ch: '\n', loc: st.cloc, quoted: false }))
        }
    } else if tri {
        let tri_loc = st.live.s1.unwrap().loc;
        let st = push_issue(
            st,
            Some(tri_loc),
            IssueType::Warning,
            IssueDesc::TrigraphPresentAndIgnored(b),
        );
        comment_or_insert_sp(p, st, b)
    } else {
        comment_or_insert_sp(p, st, b)
    }
}

/// Feed a sequence of characters, left to right.
pub open spec fn feed_sp(p: Params, st: StateModel, s: Seq<char>) -> StateModel
    decreases s.len(),
{
    if s.len() == 0 {
        st
    } else {
        feed_sp(p, step_sp(p, st, s.first()), s.drop_first())
    }
}

/// Whether the file ends in a way that older standards leave undefined:
/// no final newline, a continuation backslash before the final newline, or
/// a trigraph that would become such a backslash.
pub open spec fn file_end_bad(s: Seq<char>) -> bool {
    s.last() != '\n' || (s.len() >= 2 && s[s.len() - 2] == '\\') || (s.len() >= 4 && s[s.len()
        - 4] == '?' && s[s.len() - 3] == '?' && s[s.len() - 2] == '/')
}

/// Diagnostics raised before any character is read.
pub open spec fn prepass_issues(p: Params, file: Seq<char>) -> Seq<IssueRec> {
    let base: Seq<IssueRec> = if p.version.spec_ver_le(CVersion::Max, CppVersion::Cpp03)
        && file.len() > 0 && file_end_bad(file) {
        seq![
            IssueRec {
                loc: None,
                itype: IssueType::Warning,
                desc: IssueDesc::FileEndMissingNewline,
            },
        ]
    } else {
        Seq::empty()
    };
    if p.trigraphs && p.version.spec_ver_ge(CVersion::Max, CppVersion::Cpp14) {
        base.push(
            IssueRec { loc: None, itype: IssueType::Warning, desc: IssueDesc::TrigraphAndVersionConflict },
        )
    } else {
        base
    }
}

/// A freshly built machine, before the pre-pass diagnostics.
pub open spec fn start_sp() -> StateModel {
    StateModel {
        lc_active: None,
        quot_active: None,
        out: Seq::empty(),
        non_multimerge: false,
        cloc: SrcLoc { line: 0, col: 0 },
        oloc: SrcLoc { line: 1, col: 0 },
        last_add: None,
        issues: Seq::empty(),
        map: Seq::empty(),
        line_state: LineState::SeekingHash,
        live: win_empty(),
        com: win_empty(),
    }
}

pub open spec fn init_sp(p: Params, file: Seq<char>) -> StateModel {
    StateModel { issues: prepass_issues(p, file), ..start_sp() }
}

/// End of input: a comment or quote still open becomes a diagnostic, one
/// more virtual newline seals the output, and the live window is flushed.
pub open spec fn finish_sp(p: Params, st: StateModel) -> StateModel {
    let st = if (match st.lc_active {
        Some((k, _)) => k == CommentType::SingleLine,
        None => false,
    }) {
        end_comment_sp(st)
    } else {
        st
    };
    let st = match st.lc_active {
        Some((_, loc)) => StateModel {
            lc_active: None,
            com: win_empty(),
            ..push_issue(st, Some(loc), IssueType::Error, IssueDesc::MultilineCommentNotClosed)
        },
        None => st,
    };
    let st = match st.quot_active {
        Some((q, qloc)) => StateModel {
            quot_active: None,
            ..push_issue(st, Some(qloc), IssueType::Error, IssueDesc::QuotationMarkNotClosed(q))
        },
        None => st,
    };
    drain_sp(step_sp(p, st, '\n'))
}

/// The whole run: prime with a newline, feed the file, feed two virtual
/// newlines so pending splices and comments resolve, then finish.
pub open spec fn transform_sp(p: Params, file: Seq<char>) -> StateModel {
    let st = init_sp(p, file);
    let st = step_sp(p, st, '\n');
    let st = feed_sp(p, st, file);
    let st = step_sp(p, st, '\n');
    let st = step_sp(p, st, '\n');
    finish_sp(p, st)
}

// ---------------------------------------------------------------------
// Well-formedness of a machine state, and bounds on its counters. These
// carry the arithmetic safety of the executable code and the strict
// monotonicity of the location map.
// ---------------------------------------------------------------------

/// Lexicographic order on positions, weak and strict.
pub open spec fn loc_le(a: SrcLoc, b: SrcLoc) -> bool {
    a.line < b.line || (a.line == b.line && a.col <= b.col)
}

pub open spec fn loc_lt(a: SrcLoc, b: SrcLoc) -> bool {
    a.line < b.line || (a.line == b.line && a.col < b.col)
}

/// The slots of a window carry positions that do not decrease from the
/// oldest to the newest.
pub open spec fn win_chain(w: Window) -> bool {
    &&& (w.s0 is Some && w.s1 is Some ==> loc_le(w.s0.unwrap().loc, w.s1.unwrap().loc))
    &&& (w.s1 is Some && w.s2 is Some ==> loc_le(w.s1.unwrap().loc, w.s2.unwrap().loc))
    &&& (w.s0 is Some && w.s2 is Some ==> loc_le(w.s0.unwrap().loc, w.s2.unwrap().loc))
}

/// Every slot's position is at most `l`.
pub open spec fn win_le_loc(w: Window, l: SrcLoc) -> bool {
    &&& (w.s0 is Some ==> loc_le(w.s0.unwrap().loc, l))
    &&& (w.s1 is Some ==> loc_le(w.s1.unwrap().loc, l))
    &&& (w.s2 is Some ==> loc_le(w.s2.unwrap().loc, l))
}

/// Every slot's position is at least `l`.
pub open spec fn win_ge_loc(w: Window, l: SrcLoc) -> bool {
    &&& (w.s0 is Some ==> loc_le(l, w.s0.unwrap().loc))
    &&& (w.s1 is Some ==> loc_le(l, w.s1.unwrap().loc))
    &&& (w.s2 is Some ==> loc_le(l, w.s2.unwrap().loc))
}

/// The anchors' output positions are strictly increasing.
pub open spec fn map_sorted(m: Seq<(SrcLoc, SrcLoc)>) -> bool {
    forall|i: int, j: int| 0 <= i < j < m.len() ==> loc_lt(#[trigger] m[i].1, #[trigger] m[j].1)
}

/// Structural soundness of a state: ordered windows below the input
/// cursor, and a location map that trails the two cursors.
pub open spec fn wf(st: StateModel) -> bool {
    &&& win_chain(st.live)
    &&& win_chain(st.com)
    &&& win_le_loc(st.live, st.cloc)
    &&& win_le_loc(st.com, st.cloc)
    &&& map_sorted(st.map)
    &&& (st.map.len() > 0 ==> loc_le(st.map.last().1, st.oloc))
    &&& (st.map.len() > 0 ==> loc_le(st.map.last().0, st.cloc))
    &&& (st.map.len() > 0 ==> win_ge_loc(st.live, st.map.last().0))
    &&& (st.last_add is Some ==> st.out.len() > 0)
}

pub open spec fn slot_bounded(s: Option<Entry>, n: int) -> bool {
    s is Some ==> s.unwrap().loc.line <= n && s.unwrap().loc.col <= n
}

pub open spec fn win_bounded(w: Window, n: int) -> bool {
    slot_bounded(w.s0, n) && slot_bounded(w.s1, n) && slot_bounded(w.s2, n)
}

/// Every counter of the state is at most `n`.
pub open spec fn bounded(st: StateModel, n: int) -> bool {
    &&& st.cloc.line <= n && st.cloc.col <= n
    &&& st.oloc.line <= n && st.oloc.col <= n
    &&& win_bounded(st.live, n)
    &&& win_bounded(st.com, n)
    &&& (st.map.len() > 0 ==> st.map.last().0.line <= n && st.map.last().0.col <= n
        && st.map.last().1.line <= n && st.map.last().1.col <= n)
}

/// The ceiling under which the executable machine runs one step safely.
pub open spec fn b_lim() -> int {
    usize::MAX as int / 4
}

pub proof fn lemma_bounded_mono(st: StateModel, m: int, n: int)
    requires
        bounded(st, m),
        m <= n,
    ensures
        bounded(st, n),
{
}

/// What the inserted slot must satisfy so that an insertion keeps the
/// state well formed: its position is bounded, follows everything in the
/// current window, follows the last anchor, and is at most the cursor.
pub open spec fn entry_ok_for(st: StateModel, e: Entry, n: int) -> bool {
    &&& e.loc.line <= n && e.loc.col <= n
    &&& win_le_loc(cur_of(st), e.loc)
    &&& (st.map.len() > 0 ==> loc_le(st.map.last().0, e.loc))
    &&& loc_le(e.loc, st.cloc)
}

pub proof fn lemma_insert_wf(st: StateModel, b: Option<Entry>, n: int)
    requires
        wf(st),
        bounded(st, n),
        0 <= n,
        2 * n + 16 <= usize::MAX as int,
        b is Some ==> entry_ok_for(st, b.unwrap(), n),
    ensures
        wf(insert_sp(st, b)),
        bounded(insert_sp(st, b), n + 1),
{
    let w = cur_of(st);
    let r = insert_sp(st, b);
    match w.s0 {
        None => {},
        Some(e) => {
            if st.lc_active is None {
                let st1 = set_cur(
                    StateModel { line_state: ls_update(st, w), non_multimerge: false, ..st },
                    Window { s0: w.s1, s1: w.s2, s2: b },
                );
                let c0 = if st1.line_state == LineState::FoundNonHash && e.ch == '\n'
                    && st1.last_add is Some {
                    ' '
                } else {
                    e.ch
                };
                let c1 = if is_ws(c0) && !e.quoted {
                    ' '
                } else {
                    c0
                };
                if (e.quoted || (((st1.last_add != Some(' ') && st1.last_add != Some('\n'))
                    || !is_ws(c0)) && (c0 != '\n' || st1.last_add != Some('\n')))) && !(c1 == '\n'
                    && st1.last_add == Some(' ')) && c1 != '\n' && c1 != ' ' {
                    let oloc1 = SrcLoc { line: st.oloc.line, col: (st.oloc.col + 1) as usize };
                    let m2 = map_push_sp(st.map, e.loc, oloc1);
                    assert(loc_le(e.loc, st.cloc));
                    if st.map.len() == 0 || !(predict_sp(st.map.last(), e.loc).line == oloc1.line
                        && predict_sp(st.map.last(), e.loc).col == oloc1.col) {
                        assert(m2 == st.map.push((e.loc, oloc1)));
                        assert forall|i: int, j: int| 0 <= i < j < m2.len() implies loc_lt(
                            #[trigger] m2[i].1,
                            #[trigger] m2[j].1,
                        ) by {
                            if j == m2.len() - 1 && st.map.len() > 0 {
                                if i < st.map.len() - 1 {
                                    assert(loc_lt(st.map[i].1, st.map.last().1));
                                }
                                assert(loc_le(st.map.last().1, st.oloc));
                            }
                        }
                        assert(map_sorted(m2));
                    }
                    assert(wf(r));
                } else {
                    assert(wf(r));
                }
            } else {
                assert(wf(r));
            }
        },
    }
}

pub proof fn lemma_drain_wf(st: StateModel, n: int)
    requires
        wf(st),
        bounded(st, n),
        0 <= n,
        2 * n + 24 <= usize::MAX as int,
    ensures
        wf(drain_sp(st)),
        bounded(drain_sp(st), n + 3),
{
    lemma_insert_wf(st, None, n);
    lemma_insert_wf(insert_sp(st, None), None, n + 1);
    lemma_insert_wf(insert_sp(insert_sp(st, None), None), None, n + 2);
}

#[verifier::rlimit(50)]
pub proof fn lemma_step_wf(p: Params, st: StateModel, b: char, n: int)
    requires
        wf(st),
        bounded(st, n),
        0 <= n,
        2 * n + 40 <= usize::MAX as int,
    ensures
        wf(step_sp(p, st, b)),
        bounded(step_sp(p, st, b), n + 8),
{
    let sta = StateModel {
        cloc: SrcLoc { line: st.cloc.line, col: (st.cloc.col + 1) as usize },
        ..st
    };
    assert(wf(sta));
    assert(bounded(sta, n + 1));
    if tri_fires(sta, b) && !trigraphs_ignored(p) {
        assert(wf(step_sp(p, st, b)));
    } else {
        lemma_step_rest_wf(p, sta, b, tri_fires(sta, b), n + 1);
    }
}

#[verifier::rlimit(50)]
pub proof fn lemma_step_rest_wf(p: Params, st: StateModel, b: char, tri: bool, n: int)
    requires
        wf(st),
        bounded(st, n),
        0 <= n,
        2 * n + 38 <= usize::MAX as int,
    ensures
        wf(step_rest_sp(p, st, b, tri)),
        bounded(step_rest_sp(p, st, b, tri), n + 7),
{
    let stb = if st.lc_active is None {
        match st.quot_active {
            None => if b == '\'' || b == '"' {
                StateModel { quot_active: Some((b, st.cloc)), ..st }
            } else {
                st
            },
            Some((q, _)) => if q == b && quote_closes(st.live) {
                StateModel { quot_active: None, ..st }
            } else {
                st
            },
        }
    } else {
        st
    };
    assert(wf(stb));
    assert(bounded(stb, n));
    if b == '\n' {
        if top_ch(cur_of(stb)) != Some('\\') {
            let stc = if (match stb.lc_active {
                Some((k, _)) => k == CommentType::SingleLine,
                None => false,
            }) {
                lemma_drain_wf(stb, n);
                end_comment_sp(stb)
            } else {
                stb
            };
            assert(wf(stc));
            assert(bounded(stc, n + 3));
            let st_d = match stc.quot_active {
                Some((q, qloc)) => StateModel {
                    quot_active: None,
                    ..push_issue(
                        stc,
                        Some(qloc),
                        IssueType::Warning,
                        IssueDesc::QuotationMarkNotClosed(q),
                    )
                },
                None => stc,
            };
            let ste = StateModel {
                cloc: SrcLoc { line: (st_d.cloc.line + 1) as usize, col: 0 },
                ..st_d
            };
            assert(wf(ste));
            assert(bounded(ste, n + 4));
            lemma_insert_wf(ste, Some(Entry { ch: '\n', loc: ste.cloc, quoted: false }), n + 4);
        } else if !stb.non_multimerge {
            assert(wf(step_rest_sp(p, st, b, tri)));
        } else {
            lemma_insert_wf(stb, Some(Entry { ch: '\n', loc: stb.cloc, quoted: false }), n);
        }
    } else if tri {
        let tri_loc = stb.live.s1.unwrap().loc;
        let st_d = push_issue(
            stb,
            Some(tri_loc),
            IssueType::Warning,
            IssueDesc::TrigraphPresentAndIgnored(b),
        );
        lemma_comment_or_insert_wf(p, st_d, b, n);
    } else {
        lemma_comment_or_insert_wf(p, stb, b, n);
    }
}

// ---------------------------------------------------------------------
// The run as a whole.
// ---------------------------------------------------------------------

/// Feeding a concatenation is feeding the parts in turn.
pub proof fn lemma_feed_concat(p: Params, st: StateModel, a: Seq<char>, b: Seq<char>)
    ensures
        feed_sp(p, st, a + b) == feed_sp(p, feed_sp(p, st, a), b),
    decreases a.len(),
{
    if a.len() == 0 {
        assert(a + b =~= b);
    } else {
        assert((a + b).first() == a.first());
        assert((a + b).drop_first() =~= a.drop_first() + b);
        lemma_feed_concat(p, step_sp(p, st, a.first()), a.drop_first(), b);
    }
}

/// One more character of a prefix is one more step.
pub proof fn lemma_feed_snoc(p: Params, st: StateModel, s: Seq<char>, i: int)
    requires
        0 <= i < s.len(),
    ensures
        feed_sp(p, st, s.take(i + 1)) == step_sp(p, feed_sp(p, st, s.take(i)), s[i]),
{
    let unit = seq![s[i]];
    assert(s.take(i + 1) =~= s.take(i) + unit);
    lemma_feed_concat(p, st, s.take(i), unit);
    let mid = feed_sp(p, st, s.take(i));
    assert(unit.len() == 1);
    assert(unit.first() == s[i]);
    assert(unit.drop_first().len() == 0);
    assert(feed_sp(p, mid, unit) == feed_sp(p, step_sp(p, mid, s[i]), unit.drop_first()));
    assert(feed_sp(p, step_sp(p, mid, s[i]), unit.drop_first()) == step_sp(p, mid, s[i]));
}

pub open spec fn loc_model(fname: Seq<char>, l: SrcLoc) -> LocationModel {
    LocationModel { filename: fname, nline: l.line as int, nchar: l.col as int }
}

pub open spec fn issue_model(fname: Seq<char>, r: IssueRec) -> IssueModel {
    IssueModel {
        loc: match r.loc {
            Some(l) => Some(loc_model(fname, l)),
            None => None,
        },
        itype: r.itype,
        desc: r.desc,
    }
}

/// Mathematical image of the `Output` record.
#[verifier::ext_equal]
pub struct OutputModel {
    pub new_file: Seq<char>,
    pub issues: Seq<IssueModel>,
    pub loc_mapping: Seq<(LocationModel, LocationModel)>,
}

/// What the entry point returns, as pure data: the final state of the
/// whole run, with the filename attached to every recorded position.
pub open spec fn output_sp(p: Params, fname: Seq<char>, file: Seq<char>) -> OutputModel {
    let st = transform_sp(p, file);
    OutputModel {
        new_file: st.out,
        issues: st.issues.map_values(|r: IssueRec| issue_model(fname, r)),
        loc_mapping: st.map.map_values(
            |pr: (SrcLoc, SrcLoc)| (loc_model(fname, pr.0), loc_model(fname, pr.1)),
        ),
    }
}

pub proof fn lemma_comment_or_insert_wf(p: Params, st: StateModel, b: char, n: int)
    requires
        wf(st),
        bounded(st, n),
        0 <= n,
        2 * n + 24 <= usize::MAX as int,
    ensures
        wf(comment_or_insert_sp(p, st, b)),
        bounded(comment_or_insert_sp(p, st, b), n + 1),
{
    if st.quot_active is None && st.lc_active is None && top_ch(st.live) == Some('/') && (b == '/'
        && p.version.spec_ver_ge(CVersion::C99, CppVersion::Min) || b == '*') {
        assert(wf(comment_or_insert_sp(p, st, b)));
    } else if st.quot_active is None && (match st.lc_active {
        Some((k, _)) => k == CommentType::MultiLine,
        None => false,
    }) && top_ch(st.com) == Some('*') && b == '/' {
        assert(wf(comment_or_insert_sp(p, st, b)));
    } else {
        lemma_insert_wf(
            st,
            Some(Entry { ch: b, loc: st.cloc, quoted: st.quot_active is Some && b != '\n' }),
            n,
        );
    }
}

} // verus!
