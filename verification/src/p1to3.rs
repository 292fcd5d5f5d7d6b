//! The state machine that handles translation phases 1 and 2, and the
//! comment/whitespace portion of translation phase 3.
//!
//! The output text always begins and ends with a newline. Every function
//! here is specified against the step functions of `crate::model`; the
//! entry point returns exactly `output_sp`.

use vstd::prelude::*;

use crate::common::{CVersion, CppVersion, Issue, IssueDesc, IssueType, Location, Params};
use crate::model::{
    b_lim, bounded, comment_or_insert_sp, cur_of, del_sp, drain_sp, end_comment_sp, feed_sp,
    file_end_bad, finish_sp, init_sp, insert_sp, is_ws, issue_model, lemma_bounded_mono, loc_le,
    lemma_comment_or_insert_wf, lemma_drain_wf, lemma_feed_snoc, lemma_insert_wf, lemma_step_wf,
    loc_model, map_push_sp, output_sp, predict_sp, prepass_issues, quote_closes, rep1_sp, rep2_sp,
    set_cur, start_sp, step_sp, transform_sp, trigraph_subst, trigraphs_ignored, wf, win_empty,
    CommentType, Entry, IssueRec, LineState, OutputModel, SrcLoc, StateModel, Window,
};

verus! {

/// Whitespace that collapses to a space; excludes the newline.
fn is_whitespace(c: char) -> (r: bool)
    ensures
        r == is_ws(c),
{
    c == '\u{c}' || c == '\u{b}' || c == ' ' || c == '\t'
}

/// The replacement a trigraph third character selects, if any.
fn trigraph_char(c: char) -> (r: Option<char>)
    ensures
        r == trigraph_subst(c),
{
    match c {
        '<' => Some('{'),
        '>' => Some('}'),
        '(' => Some('['),
        ')' => Some(']'),
        '=' => Some('#'),
        '/' => Some('\\'),
        '\'' => Some('^'),
        '!' => Some('|'),
        '-' => Some('~'),
        _ => None,
    }
}

/// Whether a quote character arriving now would close the open literal.
fn quote_would_close(w: Window) -> (r: bool)
    ensures
        r == quote_closes(w),
{
    match w.s2 {
        Some(e2) => e2.ch != '\\' || (match w.s1 {
            Some(e1) => e1.ch == '\\',
            None => false,
        }),
        None => match w.s1 {
            Some(e1) => e1.ch != '\\',
            None => true,
        },
    }
}

/// Running state of one transformation pass; its view is the
/// `StateModel` of `crate::model`.
struct State {
    lc_active: Option<(CommentType, SrcLoc)>,
    quot_active: Option<(char, SrcLoc)>,
    new_file: Vec<char>,
    non_multimerge: bool,
    cloc: SrcLoc,
    oloc: SrcLoc,
    last_add: Option<char>,
    issues: Vec<IssueRec>,
    loc_mapping: Vec<(SrcLoc, SrcLoc)>,
    line_state: LineState,
    live: Window,
    com: Window,
}

impl View for State {
    type V = StateModel;

    closed spec fn view(&self) -> StateModel {
        StateModel {
            lc_active: self.lc_active,
            quot_active: self.quot_active,
            out: self.new_file@,
            non_multimerge: self.non_multimerge,
            cloc: self.cloc,
            oloc: self.oloc,
            last_add: self.last_add,
            issues: self.issues@,
            map: self.loc_mapping@,
            line_state: self.line_state,
            live: self.live,
            com: self.com,
        }
    }
}

impl State {
    fn new() -> (st: State)
        ensures
            st@ == start_sp(),
    {
        let st = State {
            lc_active: None,
            quot_active: None,
            new_file: Vec::new(),
            non_multimerge: false,
            cloc: SrcLoc { line: 0, col: 0 },
            oloc: SrcLoc { line: 1, col: 0 },
            last_add: None,
            issues: Vec::new(),
            loc_mapping: Vec::new(),
            line_state: LineState::SeekingHash,
            live: Window { s0: None, s1: None, s2: None },
            com: Window { s0: None, s1: None, s2: None },
        };
        proof {
            assert(st@ =~= start_sp());
        }
        st
    }

    /// The window being written: the comment buffer while a comment is
    /// open, the live buffer otherwise.
    fn cur_stack(&self) -> (w: Window)
        ensures
            w == cur_of(self@),
    {
        if self.lc_active.is_some() {
            self.com
        } else {
            self.live
        }
    }

    fn set_cur_win(&mut self, w: Window)
        ensures
            final(self)@ == set_cur(old(self)@, w),
    {
        if self.lc_active.is_some() {
            self.com = w;
        } else {
            self.live = w;
        }
    }

    /// Shift a slot into the current window; the slot that falls out is
    /// emitted under the whitespace rules (nothing is emitted while a
    /// comment is open).
    #[verifier::rlimit(100)]
    fn insert_stack(&mut self, b: Option<Entry>)
        requires
            wf(old(self)@),
            bounded(old(self)@, b_lim() + 16),
        ensures
            final(self)@ == insert_sp(old(self)@, b),
    {
        let w = self.cur_stack();
        let top_is_nl = match w.s2 {
            Some(e) => e.ch == '\n',
            None => false,
        };
        if top_is_nl {
            if self.quot_active.is_none() && self.lc_active.is_none() {
                self.line_state = LineState::SeekingHash;
            } else {
                self.line_state = LineState::FoundNonHash;
            }
        } else if w.s0.is_none() && w.s2.is_some() && self.line_state == LineState::SeekingHash {
            let c2 = w.s2.unwrap().ch;
            if is_whitespace(c2) {
                // still seeking: leading whitespace does not classify
            } else if c2 == '#' {
                self.line_state = LineState::FoundHash;
            } else {
                let s1_withholds = match w.s1 {
                    Some(e) => e.ch == '?' || e.ch == '\n',
                    None => true,
                };
                if c2 != '?' || !s1_withholds {
                    self.line_state = LineState::FoundNonHash;
                }
            }
        }
        self.set_cur_win(Window { s0: w.s1, s1: w.s2, s2: b });
        self.non_multimerge = false;
        if let Some(e) = w.s0 {
            if self.lc_active.is_none() {
                let c0 = if self.line_state == LineState::FoundNonHash && e.ch == '\n'
                    && self.last_add.is_some() {
                    ' '
                } else {
                    e.ch
                };
                let la_space = match self.last_add {
                    Some(c) => c == ' ',
                    None => false,
                };
                let la_nl = match self.last_add {
                    Some(c) => c == '\n',
                    None => false,
                };
                let keep = e.quoted || (((!la_space && !la_nl) || !is_whitespace(c0)) && (c0 != '\n'
                    || !la_nl));
                if keep {
                    let c1 = if is_whitespace(c0) && !e.quoted {
                        ' '
                    } else {
                        c0
                    };
                    if c1 == '\n' && la_space {
                        self.new_file.pop();
                        self.new_file.push(c1);
                        self.oloc = SrcLoc { line: self.oloc.line + 1, col: 0 };
                        self.last_add = Some(c1);
                    } else {
                        let oloc1 = SrcLoc { line: self.oloc.line, col: self.oloc.col + 1 };
                        if c1 != '\n' && c1 != ' ' {
                            let push_it = if self.loc_mapping.len() == 0 {
                                true
                            } else {
                                let lm = self.loc_mapping[self.loc_mapping.len() - 1];
                                proof {
                                    assert(lm == old(self)@.map.last());
                                    assert(old(self)@.live.s0 == Some(e));
                                    assert(loc_le(lm.0, e.loc));
                                }
                                let pl: usize;
                                let pc: usize;
                                if lm.0.line != e.loc.line {
                                    pl = lm.1.line + (e.loc.line - lm.0.line);
                                    pc = 1 + e.loc.col - 1;
                                } else {
                                    pl = lm.1.line;
                                    pc = lm.1.col + e.loc.col - lm.0.col;
                                }
                                !(pl == oloc1.line && pc == oloc1.col)
                            };
                            if push_it {
                                self.loc_mapping.push((e.loc, oloc1));
                            }
                            proof {
                                assert(self@.map == map_push_sp(old(self)@.map, e.loc, oloc1));
                            }
                        }
                        if c1 == '\n' {
                            self.oloc = SrcLoc { line: oloc1.line + 1, col: 0 };
                        } else {
                            self.oloc = oloc1;
                        }
                        self.new_file.push(c1);
                        self.last_add = Some(c1);
                    }
                }
            }
        }
        proof {
            assert(self@ =~= insert_sp(old(self)@, b));
        }
    }

    /// Overwrite the newest slot of the live window.
    fn replace_stack1(&mut self, b: Option<Entry>)
        ensures
            final(self)@ == (StateModel {
                live: rep1_sp(old(self)@.live, b),
                non_multimerge: false,
                ..old(self)@
            }),
    {
        self.live = Window { s0: self.live.s0, s1: self.live.s1, s2: b };
        self.non_multimerge = false;
    }

    /// Consume the two newest slots of the live window, writing one back.
    fn replace_stack2(&mut self, b: Option<Entry>)
        ensures
            final(self)@ == (StateModel {
                live: rep2_sp(old(self)@.live, b),
                non_multimerge: false,
                ..old(self)@
            }),
    {
        self.live = Window { s0: None, s1: self.live.s0, s2: b };
        self.non_multimerge = false;
    }

    /// Delete the newest slot of the current window.
    fn del_char(&mut self)
        ensures
            final(self)@ == (StateModel {
                non_multimerge: false,
                ..set_cur(old(self)@, del_sp(cur_of(old(self)@)))
            }),
    {
        let w = self.cur_stack();
        self.set_cur_win(Window { s0: None, s1: w.s0, s2: w.s1 });
        self.non_multimerge = false;
    }

    /// Flush the current window.
    fn drain_stack(&mut self)
        requires
            wf(old(self)@),
            bounded(old(self)@, b_lim() + 8),
        ensures
            final(self)@ == drain_sp(old(self)@),
    {
        let ghost st0 = self@;
        self.insert_stack(None);
        proof {
            lemma_insert_wf(st0, None, b_lim() + 8);
        }
        self.insert_stack(None);
        proof {
            lemma_insert_wf(insert_sp(st0, None), None, b_lim() + 9);
        }
        self.insert_stack(None);
    }

    /// Close a single-line comment, discarding what it buffered.
    fn end_comment(&mut self)
        requires
            wf(old(self)@),
            bounded(old(self)@, b_lim() + 8),
        ensures
            final(self)@ == end_comment_sp(old(self)@),
    {
        self.drain_stack();
        self.lc_active = None;
        proof {
            assert(self@ =~= end_comment_sp(old(self)@));
        }
    }

    /// Recognize a comment boundary, or take the character in.
    fn comment_or_insert(&mut self, params: &Params, b: char)
        requires
            wf(old(self)@),
            bounded(old(self)@, b_lim() + 8),
            b != '\n',
        ensures
            final(self)@ == comment_or_insert_sp(*params, old(self)@, b),
    {
        let top_slash = match self.live.s2 {
            Some(e) => e.ch == '/',
            None => false,
        };
        let quot_none = self.quot_active.is_none();
        let lc_none = self.lc_active.is_none();
        if quot_none && lc_none && top_slash && b == '/' && params.version.ver_ge(
            CVersion::C99,
            CppVersion::Min,
        ) {
            let com_loc = self.live.s2.unwrap().loc;
            self.lc_active = Some((CommentType::SingleLine, com_loc));
            self.replace_stack1(Some(Entry { ch: ' ', loc: com_loc, quoted: false }));
            proof {
                assert(self@ =~= comment_or_insert_sp(*params, old(self)@, b));
            }
        } else if quot_none && lc_none && top_slash && b == '*' {
            let com_loc = self.live.s2.unwrap().loc;
            self.lc_active = Some((CommentType::MultiLine, com_loc));
            self.replace_stack1(Some(Entry { ch: ' ', loc: com_loc, quoted: false }));
            proof {
                assert(self@ =~= comment_or_insert_sp(*params, old(self)@, b));
            }
        } else {
            let in_multi = match self.lc_active {
                Some((k, _)) => k == CommentType::MultiLine,
                None => false,
            };
            let com_star = match self.com.s2 {
                Some(e) => e.ch == '*',
                None => false,
            };
            if quot_none && in_multi && com_star && b == '/' {
                self.lc_active = None;
                self.com = Window { s0: None, s1: None, s2: None };
                proof {
                    assert(self@ =~= comment_or_insert_sp(*params, old(self)@, b));
                }
            } else {
                let quoted = self.quot_active.is_some();
                let e = Entry { ch: b, loc: self.cloc, quoted };
                self.insert_stack(Some(e));
                proof {
                    assert(self@ =~= comment_or_insert_sp(*params, old(self)@, b));
                }
            }
        }
    }

    /// Feed one character through the machine: advance the cursor,
    /// translate a completed trigraph, and otherwise track quotes and
    /// handle the newline, comment and plain cases.
    #[verifier::rlimit(100)]
    fn process_char(&mut self, params: &Params, b: char)
        requires
            wf(old(self)@),
            bounded(old(self)@, b_lim()),
        ensures
            final(self)@ == step_sp(*params, old(self)@, b),
    {
        self.cloc = SrcLoc { line: self.cloc.line, col: self.cloc.col + 1 };
        let tri = trigraph_char(b);
        let s1q = match self.live.s1 {
            Some(e) => e.ch == '?',
            None => false,
        };
        let s2q = match self.live.s2 {
            Some(e) => e.ch == '?',
            None => false,
        };
        let fires = self.lc_active.is_none() && self.quot_active.is_none() && s1q && s2q
            && tri.is_some();
        let ignored = params.version.ver_ge(CVersion::Max, CppVersion::Cpp17)
            || !params.trigraphs;
        if fires && !ignored {
            let tri_loc = self.live.s1.unwrap().loc;
            if params.wtrigraphs {
                self.issues.push(
                    IssueRec {
                        loc: Some(tri_loc),
                        itype: IssueType::Warning,
                        desc: IssueDesc::TrigraphPresent(b),
                    },
                );
            }
            self.replace_stack2(Some(Entry { ch: tri.unwrap(), loc: tri_loc, quoted: false }));
            proof {
                assert(self@ =~= step_sp(*params, old(self)@, b));
            }
        } else {
            if self.lc_active.is_none() {
                match self.quot_active {
                    None => {
                        if b == '\'' || b == '"' {
                            self.quot_active = Some((b, self.cloc));
                        }
                    },
                    Some((q, _)) => {
                        if q == b && quote_would_close(self.live) {
                            self.quot_active = None;
                        }
                    },
                }
            }
            let ghost stb = self@;
            proof {
                assert(wf(stb));
                assert(bounded(stb, b_lim() + 1));
            }
            if b == '\n' {
                let w = self.cur_stack();
                let top_bs = match w.s2 {
                    Some(e) => e.ch == '\\',
                    None => false,
                };
                if !top_bs {
                    let in_single = match self.lc_active {
                        Some((k, _)) => k == CommentType::SingleLine,
                        None => false,
                    };
                    if in_single {
                        self.end_comment();
                        proof {
                            lemma_drain_wf(stb, b_lim() + 1);
                            assert(wf(self@));
                        }
                    }
                    if let Some((q, qloc)) = self.quot_active {
                        self.issues.push(
                            IssueRec {
                                loc: Some(qloc),
                                itype: IssueType::Warning,
                                desc: IssueDesc::QuotationMarkNotClosed(q),
                            },
                        );
                        self.quot_active = None;
                    }
                    self.cloc = SrcLoc { line: self.cloc.line + 1, col: 0 };
                    let e = Entry { ch: '\n', loc: self.cloc, quoted: false };
                    proof {
                        assert(wf(self@));
                        assert(bounded(self@, b_lim() + 5));
                    }
                    self.insert_stack(Some(e));
                } else if !self.non_multimerge {
                    self.del_char();
                    self.non_multimerge = true;
                    self.cloc = SrcLoc { line: self.cloc.line + 1, col: 0 };
                } else {
                    let e = Entry { ch: '\n', loc: self.cloc, quoted: false };
                    self.insert_stack(Some(e));
                }
            } else if fires {
                let tri_loc = self.live.s1.unwrap().loc;
                self.issues.push(
                    IssueRec {
                        loc: Some(tri_loc),
                        itype: IssueType::Warning,
                        desc: IssueDesc::TrigraphPresentAndIgnored(b),
                    },
                );
                self.comment_or_insert(params, b);
            } else {
                self.comment_or_insert(params, b);
            }
            proof {
                assert(self@ =~= step_sp(*params, old(self)@, b));
            }
        }
    }
}

/// What one transformation run produces: the normalized text, the
/// diagnostics in the order they were detected, and the coalesced map
/// from output positions back to source positions.
#[derive(Debug, PartialEq)]
pub struct Output {
    pub new_file: String,
    pub issues: Vec<Issue>,
    pub loc_mapping: Vec<(Location, Location)>,
}

impl View for Output {
    type V = OutputModel;

    open spec fn view(&self) -> OutputModel {
        OutputModel {
            new_file: self.new_file@,
            issues: self.issues@.map_values(|i: Issue| i@),
            loc_mapping: self.loc_mapping@.map_values(
                |pr: (Location, Location)| (pr.0@, pr.1@),
            ),
        }
    }
}

/// Relies on std's `FromIterator` for `String`: collecting characters
/// yields the string of exactly those characters, in order.
#[verifier::external_body]
fn chars_to_string(v: &Vec<char>) -> (s: String)
    ensures
        s@ == v@,
{
    v.iter().collect()
}

/// Build the starting state, pre-pass diagnostics included.
#[verifier::rlimit(30)]
#[verifier::spinoff_prover]
fn init_state(params: &Params, chars: &Vec<char>) -> (st: State)
    ensures
        st@ == init_sp(*params, chars@),
{
    let mut state = State::new();
    if params.version.ver_le(CVersion::Max, CppVersion::Cpp03) && chars.len() != 0 {
        let len = chars.len();
        let bad = chars[len - 1] != '\n' || (len >= 2 && chars[len - 2] == '\\') || (len >= 4
            && chars[len - 4] == '?' && chars[len - 3] == '?' && chars[len - 2] == '/');
        proof {
            assert(bad == file_end_bad(chars@));
        }
        if bad {
            state.issues.push(
                IssueRec {
                    loc: None,
                    itype: IssueType::Warning,
                    desc: IssueDesc::FileEndMissingNewline,
                },
            );
        }
    }
    if params.trigraphs && params.version.ver_ge(CVersion::Max, CppVersion::Cpp14) {
        state.issues.push(
            IssueRec {
                loc: None,
                itype: IssueType::Warning,
                desc: IssueDesc::TrigraphAndVersionConflict,
            },
        );
    }
    proof {
        assert(state@.issues =~= prepass_issues(*params, chars@));
        assert(state@ =~= init_sp(*params, chars@));
    }
    state
}

impl State {
    /// Feed every character of the file, left to right.
    #[verifier::rlimit(30)]
    #[verifier::spinoff_prover]
    fn feed_all(&mut self, params: &Params, chars: &Vec<char>)
        requires
            wf(old(self)@),
            bounded(old(self)@, 10),
            32 * chars@.len() + 256 <= usize::MAX as int,
        ensures
            final(self)@ == feed_sp(*params, old(self)@, chars@),
            wf(final(self)@),
            bounded(final(self)@, 10 + 8 * chars@.len() as int),
    {
        let ghost st1 = self@;
        let mut i: usize = 0;
        while i < chars.len()
            invariant
                32 * chars@.len() + 256 <= usize::MAX as int,
                i <= chars.len(),
                self@ == feed_sp(*params, st1, chars@.take(i as int)),
                wf(self@),
                bounded(self@, 10 + 8 * i as int),
            decreases chars.len() - i,
        {
            let c = chars[i];
            let ghost pre = self@;
            proof {
                lemma_bounded_mono(pre, 10 + 8 * i as int, b_lim());
            }
            self.process_char(params, c);
            proof {
                lemma_step_wf(*params, pre, c, 10 + 8 * i as int);
                lemma_feed_snoc(*params, st1, chars@, i as int);
            }
            i += 1;
        }
        proof {
            assert(chars@.take(chars@.len() as int) =~= chars@);
        }
    }

    /// End of input: resolve a comment or quote still open, seal the
    /// output with one more newline, and flush the live window.
    #[verifier::rlimit(30)]
    #[verifier::spinoff_prover]
    fn finish(&mut self, params: &Params, Ghost(n): Ghost<int>)
        requires
            wf(old(self)@),
            bounded(old(self)@, n),
            0 <= n,
            2 * n + 64 <= usize::MAX as int,
            n + 16 <= b_lim(),
        ensures
            final(self)@ == finish_sp(*params, old(self)@),
    {
        let ghost st4 = self@;
        let in_single = match self.lc_active {
            Some((k, _)) => k == CommentType::SingleLine,
            None => false,
        };
        if in_single {
            proof {
                lemma_bounded_mono(st4, n, b_lim() + 8);
            }
            self.end_comment();
            proof {
                lemma_drain_wf(st4, n);
                assert(wf(self@));
            }
        }
        if let Some((_, loc)) = self.lc_active {
            self.issues.push(
                IssueRec {
                    loc: Some(loc),
                    itype: IssueType::Error,
                    desc: IssueDesc::MultilineCommentNotClosed,
                },
            );
            self.com = Window { s0: None, s1: None, s2: None };
            self.lc_active = None;
        }
        if let Some((q, qloc)) = self.quot_active {
            self.issues.push(
                IssueRec {
                    loc: Some(qloc),
                    itype: IssueType::Error,
                    desc: IssueDesc::QuotationMarkNotClosed(q),
                },
            );
            self.quot_active = None;
        }
        let ghost st5 = self@;
        proof {
            assert(wf(st5));
            assert(bounded(st5, n + 3));
            lemma_bounded_mono(st5, n + 3, b_lim());
        }
        self.process_char(params, '\n');
        let ghost st6 = self@;
        proof {
            lemma_step_wf(*params, st5, '\n', n + 3);
            lemma_bounded_mono(st6, n + 11, b_lim() + 8);
        }
        self.drain_stack();
        proof {
            assert(self@ =~= finish_sp(*params, st4));
        }
    }
}

/// Run the machine over the whole character sequence, start to finish.
#[verifier::rlimit(30)]
#[verifier::spinoff_prover]
fn run_machine(params: &Params, chars: &Vec<char>) -> (st: State)
    requires
        32 * chars@.len() + 256 <= usize::MAX as int,
    ensures
        st@ == transform_sp(*params, chars@),
{
    let ghost lm: int = chars@.len() as int;
    let mut state = init_state(params, chars);
    let ghost st0 = state@;
    proof {
        assert(wf(st0));
        assert(bounded(st0, 2));
    }
    state.process_char(params, '\n');
    proof {
        lemma_step_wf(*params, st0, '\n', 2);
    }
    let ghost st1 = state@;
    state.feed_all(params, chars);
    let ghost st2 = state@;
    proof {
        lemma_bounded_mono(st2, 10 + 8 * lm, b_lim());
    }
    state.process_char(params, '\n');
    proof {
        lemma_step_wf(*params, st2, '\n', 10 + 8 * lm);
        lemma_bounded_mono(state@, 18 + 8 * lm, b_lim());
    }
    let ghost st3 = state@;
    state.process_char(params, '\n');
    proof {
        lemma_step_wf(*params, st3, '\n', 18 + 8 * lm);
    }
    state.finish(params, Ghost(26 + 8 * lm));
    proof {
        assert(state@ == transform_sp(*params, chars@));
    }
    state
}

/// Run translation phases 1 to 3 over `file`: translate or flag
/// trigraphs, splice backslash-newline pairs, strip comments, collapse
/// whitespace, and record diagnostics and the location map. `filename`
/// only tags the positions handed back. The result is exactly
/// `output_sp` of the model over the file's characters.
#[verifier::rlimit(100)]
#[verifier::spinoff_prover]
pub fn preproc_phases_1_to_3(file: &str, filename: &str, params: &Params) -> (out: Output)
    requires
        32 * file@.len() + 256 <= usize::MAX as int,
    ensures
        out@ == output_sp(*params, filename@, file@),
{
    let n = file.unicode_len();
    let mut chars: Vec<char> = Vec::new();
    let mut i: usize = 0;
    while i < n
        invariant
            n == file@.len(),
            i <= n,
            chars@ == file@.take(i as int),
        decreases n - i,
    {
        let c = file.get_char(i);
        chars.push(c);
        i += 1;
        proof {
            assert(chars@ =~= file@.take(i as int));
        }
    }
    proof {
        assert(file@.take(n as int) =~= file@);
    }
    let state = run_machine(params, &chars);

    // Attach the filename and hand the run back as plain data.
    let text = chars_to_string(&state.new_file);
    let mut issues: Vec<Issue> = Vec::new();
    let mut k: usize = 0;
    while k < state.issues.len()
        invariant
            k <= state.issues.len(),
            issues@.len() == k as int,
            forall|j: int|
                0 <= j < k as int ==> #[trigger] issues@[j]@ == issue_model(
                    filename@,
                    state@.issues[j],
                ),
        decreases state.issues.len() - k,
    {
        let r = state.issues[k];
        let loc = match r.loc {
            Some(l) => Some(Location::new(filename.to_owned(), l.line, l.col)),
            None => None,
        };
        issues.push(Issue::new(loc, r.itype, r.desc));
        k += 1;
    }
    let mut loc_mapping: Vec<(Location, Location)> = Vec::new();
    let mut k: usize = 0;
    while k < state.loc_mapping.len()
        invariant
            k <= state.loc_mapping.len(),
            loc_mapping@.len() == k as int,
            forall|j: int| #![trigger loc_mapping@[j]]
                0 <= j < k as int ==> loc_mapping@[j].0@ == loc_model(filename@, state@.map[j].0)
                    && loc_mapping@[j].1@ == loc_model(filename@, state@.map[j].1),
        decreases state.loc_mapping.len() - k,
    {
        let pr = state.loc_mapping[k];
        let a = Location::new(filename.to_owned(), pr.0.line, pr.0.col);
        let b = Location::new(filename.to_owned(), pr.1.line, pr.1.col);
        loc_mapping.push((a, b));
        k += 1;
    }
    let out = Output { new_file: text, issues, loc_mapping };
    proof {
        assert(out@.issues =~= output_sp(*params, filename@, file@).issues);
        assert(out@.loc_mapping =~= output_sp(*params, filename@, file@).loc_mapping);
        assert(out@ =~= output_sp(*params, filename@, file@));
    }
    out
}

} // verus!
