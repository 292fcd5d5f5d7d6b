//! Properties of the transformer, proved over the model in `model`.

use vstd::prelude::*;

use crate::common::{IssueDesc, IssueType, Params};
use crate::model::{
    bounded, cur_of, drain_sp, end_comment_sp, feed_sp, finish_sp, init_sp, insert_sp,
    is_ws, lemma_drain_wf, lemma_step_wf, loc_lt, ls_update, map_sorted, output_sp, push_issue,
    step_rest_sp, step_sp, top_ch, transform_sp, tri_fires, wf, win_empty, CommentType, Entry,
    LineState, SrcLoc, StateModel, Window,
};

verus! {

/// Feeding a whole sequence keeps the state well formed and grows its
/// counters by a bounded amount.
pub proof fn lemma_feed_wf(p: Params, st: StateModel, s: Seq<char>, n: int)
    requires
        wf(st),
        bounded(st, n),
        0 <= n,
        2 * n + 16 * s.len() + 40 <= usize::MAX as int,
    ensures
        wf(feed_sp(p, st, s)),
        bounded(feed_sp(p, st, s), n + 8 * s.len()),
    decreases s.len(),
{
    if s.len() > 0 {
        lemma_step_wf(p, st, s.first(), n);
        lemma_feed_wf(p, step_sp(p, st, s.first()), s.drop_first(), n + 8);
    }
}

/// The end-of-input sequence keeps the state well formed.
#[verifier::rlimit(100)]
#[verifier::spinoff_prover]
pub proof fn lemma_finish_wf(p: Params, st: StateModel, n: int)
    requires
        wf(st),
        bounded(st, n),
        0 <= n,
        2 * n + 64 <= usize::MAX as int,
    ensures
        wf(finish_sp(p, st)),
{
    let sta = if (match st.lc_active {
        Some((k, _)) => k == CommentType::SingleLine,
        None => false,
    }) {
        lemma_drain_wf(st, n);
        end_comment_sp(st)
    } else {
        st
    };
    assert(wf(sta));
    assert(bounded(sta, n + 3));
    let stb = match sta.lc_active {
        Some((_, loc)) => StateModel {
            lc_active: None,
            com: crate::model::win_empty(),
            ..push_issue(sta, Some(loc), IssueType::Error, IssueDesc::MultilineCommentNotClosed)
        },
        None => sta,
    };
    let stc = match stb.quot_active {
        Some((q, qloc)) => StateModel {
            quot_active: None,
            ..push_issue(stb, Some(qloc), IssueType::Error, IssueDesc::QuotationMarkNotClosed(q))
        },
        None => stb,
    };
    assert(wf(stc));
    assert(bounded(stc, n + 3));
    lemma_step_wf(p, stc, '\n', n + 3);
    lemma_drain_wf(step_sp(p, stc, '\n'), n + 11);
}

/// A whole run ends in a well-formed state; in particular its location
/// map is strictly sorted by output position.
#[verifier::rlimit(100)]
#[verifier::spinoff_prover]
pub proof fn lemma_transform_wf(p: Params, file: Seq<char>)
    requires
        32 * file.len() + 256 <= usize::MAX as int,
    ensures
        wf(transform_sp(p, file)),
{
    let st0 = init_sp(p, file);
    assert(wf(st0));
    assert(bounded(st0, 2));
    lemma_step_wf(p, st0, '\n', 2);
    let st1 = step_sp(p, st0, '\n');
    lemma_feed_wf(p, st1, file, 10);
    let st2 = feed_sp(p, st1, file);
    lemma_step_wf(p, st2, '\n', 10 + 8 * file.len() as int);
    let st3 = step_sp(p, st2, '\n');
    lemma_step_wf(p, st3, '\n', 18 + 8 * file.len() as int);
    let st4 = step_sp(p, st3, '\n');
    lemma_finish_wf(p, st4, 26 + 8 * file.len() as int);
}

/// The location map is strictly monotonic in its output positions: a
/// later anchor points at a strictly later place in the normalized text,
/// for any input and configuration.
pub proof fn lemma_location_map_monotonic(
    p: Params,
    fname: Seq<char>,
    file: Seq<char>,
    i: int,
    j: int,
)
    requires
        32 * file.len() + 256 <= usize::MAX as int,
        0 <= i < j < output_sp(p, fname, file).loc_mapping.len(),
    ensures
        ({
            let m = output_sp(p, fname, file).loc_mapping;
            m[i].1.nline < m[j].1.nline || (m[i].1.nline == m[j].1.nline && m[i].1.nchar
                < m[j].1.nchar)
        }),
{
    lemma_transform_wf(p, file);
    let st = transform_sp(p, file);
    assert(map_sorted(st.map));
    assert(loc_lt(st.map[i].1, st.map[j].1));
}

/// Inside a string or character literal, characters pass through the
/// output builder exactly as they came: what falls out of the window with
/// the literal mark on it is appended as it stands — no whitespace
/// rewriting, no collapsing, no removal. (A newline never carries the
/// mark: literals do not span unspliced newlines.)
pub proof fn lemma_literal_text_verbatim(st: StateModel, b: Option<Entry>)
    requires
        st.lc_active is None,
        cur_of(st).s0 is Some,
        cur_of(st).s0.unwrap().quoted,
        cur_of(st).s0.unwrap().ch != '\n',
    ensures
        insert_sp(st, b).out == st.out.push(cur_of(st).s0.unwrap().ch),
        insert_sp(st, b).last_add == Some(cur_of(st).s0.unwrap().ch),
{
}

/// While a comment or a string or character literal is open, no trigraph
/// is recognized: the guard of the trigraph rule is settled false, so the
/// step runs exactly as the untranslated remainder `step_rest_sp` — the
/// window is never rewritten by the rule and the trigraph diagnostics,
/// which only that rule raises, are never reached.
pub proof fn lemma_no_trigraph_inside_comment_or_quote(p: Params, st: StateModel, b: char)
    requires
        st.lc_active is Some || st.quot_active is Some,
    ensures
        !tri_fires(
            StateModel { cloc: SrcLoc { line: st.cloc.line, col: (st.cloc.col + 1) as usize }, ..st },
            b,
        ),
        step_sp(p, st, b) == step_rest_sp(
            p,
            StateModel { cloc: SrcLoc { line: st.cloc.line, col: (st.cloc.col + 1) as usize }, ..st },
            b,
            false,
        ),
{
}


// ---------------------------------------------------------------------
// The output is framed by newlines.
// ---------------------------------------------------------------------

/// The next character the live window will give up is a newline.
pub open spec fn pending_nl(w: Window) -> bool {
    if w.s0 is Some {
        w.s0.unwrap().ch == '\n'
    } else if w.s1 is Some {
        w.s1.unwrap().ch == '\n'
    } else {
        w.s2 is Some && w.s2.unwrap().ch == '\n'
    }
}

/// The frame invariant: before anything is emitted, the primed newline is
/// still pending in the live window; once the output is nonempty it opens
/// with a newline; `last_add` mirrors the last character of the output;
/// and while a comment is open, the live window's newest slot holds the
/// space that replaced the opening slash.
pub open spec fn framed(st: StateModel) -> bool {
    &&& (st.out.len() == 0 ==> st.last_add is None && pending_nl(st.live))
    &&& (st.out.len() > 0 ==> st.out[0] == '\n')
    &&& (st.last_add is Some ==> st.out.len() > 0 && st.out.last() == st.last_add.unwrap())
    &&& (st.lc_active is Some ==> top_ch(st.live) == Some(' '))
}

/// While a comment is open, an insertion only turns the comment buffer:
/// the output, the live window and the rest of the state stand still.
pub proof fn lemma_insert_com_keeps(st: StateModel, b: Option<Entry>)
    requires
        st.lc_active is Some,
    ensures
        insert_sp(st, b).out == st.out,
        insert_sp(st, b).last_add == st.last_add,
        insert_sp(st, b).live == st.live,
        insert_sp(st, b).lc_active == st.lc_active,
        insert_sp(st, b).quot_active == st.quot_active,
{
}

#[verifier::rlimit(100)]
pub proof fn lemma_insert_framed(st: StateModel, b: Option<Entry>)
    requires
        framed(st),
    ensures
        framed(insert_sp(st, b)),
{
    let r = insert_sp(st, b);
    if st.lc_active is None && st.live.s0 is Some && st.out.len() > 0 && st.out.last() == ' '
        && st.out.len() == 1 {
        assert(st.out[0] == '\n');
        assert(false);
    }
    assert(framed(r));
}

pub proof fn lemma_drain_com_keeps(st: StateModel)
    requires
        st.lc_active is Some,
    ensures
        drain_sp(st).out == st.out,
        drain_sp(st).last_add == st.last_add,
        drain_sp(st).live == st.live,
        drain_sp(st).quot_active == st.quot_active,
{
    lemma_insert_com_keeps(st, None);
    lemma_insert_com_keeps(insert_sp(st, None), None);
    lemma_insert_com_keeps(insert_sp(insert_sp(st, None), None), None);
}

/// Every step keeps the frame invariant.
#[verifier::rlimit(100)]
pub proof fn lemma_step_framed(p: Params, st: StateModel, b: char)
    requires
        framed(st),
    ensures
        framed(step_sp(p, st, b)),
{
    let sta = StateModel {
        cloc: SrcLoc { line: st.cloc.line, col: (st.cloc.col + 1) as usize },
        ..st
    };
    assert(framed(sta));
    if tri_fires(sta, b) && !crate::model::trigraphs_ignored(p) {
        assert(framed(step_sp(p, st, b)));
    } else {
        lemma_step_rest_framed(p, sta, b, tri_fires(sta, b));
    }
}

#[verifier::rlimit(100)]
pub proof fn lemma_step_rest_framed(p: Params, st: StateModel, b: char, tri: bool)
    requires
        framed(st),
    ensures
        framed(step_rest_sp(p, st, b, tri)),
{
    let stb = if st.lc_active is None {
        match st.quot_active {
            None => if b == '\'' || b == '"' {
                StateModel { quot_active: Some((b, st.cloc)), ..st }
            } else {
                st
            },
            Some((q, _)) => if q == b && crate::model::quote_closes(st.live) {
                StateModel { quot_active: None, ..st }
            } else {
                st
            },
        }
    } else {
        st
    };
    assert(framed(stb));
    if b == '\n' {
        if top_ch(cur_of(stb)) != Some('\\') {
            let stc = if (match stb.lc_active {
                Some((k, _)) => k == CommentType::SingleLine,
                None => false,
            }) {
                lemma_drain_com_keeps(stb);
                end_comment_sp(stb)
            } else {
                stb
            };
            assert(framed(stc));
            let st_d = match stc.quot_active {
                Some((q, qloc)) => StateModel {
                    quot_active: None,
                    ..push_issue(
                        stc,
                        Some(qloc),
                        crate::common::IssueType::Warning,
                        crate::common::IssueDesc::QuotationMarkNotClosed(q),
                    )
                },
                None => stc,
            };
            let ste = StateModel {
                cloc: SrcLoc { line: (st_d.cloc.line + 1) as usize, col: 0 },
                ..st_d
            };
            assert(framed(ste));
            lemma_insert_framed(ste, Some(Entry { ch: '\n', loc: ste.cloc, quoted: false }));
        } else if !stb.non_multimerge {
            assert(framed(step_rest_sp(p, st, b, tri)));
        } else {
            lemma_insert_framed(stb, Some(Entry { ch: '\n', loc: stb.cloc, quoted: false }));
        }
    } else if tri {
        let st_d = push_issue(
            stb,
            Some(stb.live.s1.unwrap().loc),
            crate::common::IssueType::Warning,
            crate::common::IssueDesc::TrigraphPresentAndIgnored(b),
        );
        assert(framed(st_d));
        lemma_comment_or_insert_framed(p, st_d, b);
    } else {
        lemma_comment_or_insert_framed(p, stb, b);
    }
}

#[verifier::rlimit(100)]
pub proof fn lemma_comment_or_insert_framed(p: Params, st: StateModel, b: char)
    requires
        framed(st),
    ensures
        framed(crate::model::comment_or_insert_sp(p, st, b)),
{
    lemma_insert_framed(
        st,
        Some(Entry { ch: b, loc: st.cloc, quoted: st.quot_active is Some && b != '\n' }),
    );
}

pub proof fn lemma_feed_framed(p: Params, st: StateModel, s: Seq<char>)
    requires
        framed(st),
    ensures
        framed(feed_sp(p, st, s)),
    decreases s.len(),
{
    if s.len() > 0 {
        lemma_step_framed(p, st, s.first());
        lemma_feed_framed(p, step_sp(p, st, s.first()), s.drop_first());
    }
}

/// Flushing a live window whose newest slot is an unquoted newline leaves
/// a nonempty output that ends with that newline.
#[verifier::rlimit(100)]
pub proof fn lemma_drain_last_nl(st: StateModel)
    requires
        framed(st),
        st.lc_active is None,
        st.quot_active is None,
        st.live.s2 is Some,
        st.live.s2.unwrap().ch == '\n',
        !st.live.s2.unwrap().quoted,
    ensures
        drain_sp(st).out.len() > 0,
        drain_sp(st).out[0] == '\n',
        drain_sp(st).out.last() == '\n',
{
    let s1 = insert_sp(st, None);
    lemma_insert_framed(st, None);
    assert(s1.line_state == LineState::SeekingHash);
    assert(s1.lc_active is None && s1.quot_active is None);
    assert(s1.live.s1 == st.live.s2);
    let s2 = insert_sp(s1, None);
    lemma_insert_framed(s1, None);
    assert(s2.line_state == LineState::SeekingHash);
    assert(s2.lc_active is None && s2.quot_active is None);
    assert(s2.live.s0 == st.live.s2);
    let s3 = insert_sp(s2, None);
    lemma_insert_framed(s2, None);
    assert(s3.last_add == Some('\n'));
    assert(s3.out.len() > 0 && s3.out.last() == '\n' && s3.out[0] == '\n');
}

/// Two virtual newlines in a row leave a newline on top of the window
/// being written, whatever came before: the first either lands or is
/// taken by a splice, and a splice cannot repeat.
#[verifier::rlimit(100)]
pub proof fn lemma_two_nl_top(p: Params, st: StateModel)
    requires
        framed(st),
    ensures
        framed(step_sp(p, step_sp(p, st, '\n'), '\n')),
        top_ch(cur_of(step_sp(p, step_sp(p, st, '\n'), '\n'))) == Some('\n'),
        !cur_of(step_sp(p, step_sp(p, st, '\n'), '\n')).s2.unwrap().quoted,
        step_sp(p, step_sp(p, st, '\n'), '\n').lc_active is Some ==> top_ch(
            step_sp(p, step_sp(p, st, '\n'), '\n').live,
        ) == Some(' '),
{
    lemma_step_framed(p, st, '\n');
    let t1 = step_sp(p, st, '\n');
    lemma_step_framed(p, t1, '\n');
}


/// The end-of-input sequence seals the output: from a framed state whose
/// window being written shows a newline on top, the finished output is
/// nonempty and closes with a newline (and still opens with one).
#[verifier::rlimit(100)]
pub proof fn lemma_finish_last_nl(p: Params, st: StateModel)
    requires
        framed(st),
        top_ch(cur_of(st)) == Some('\n'),
    ensures
        finish_sp(p, st).out.len() > 0,
        finish_sp(p, st).out[0] == '\n',
        finish_sp(p, st).out.last() == '\n',
{
    let sta = if (match st.lc_active {
        Some((k, _)) => k == CommentType::SingleLine,
        None => false,
    }) {
        lemma_drain_com_keeps(st);
        end_comment_sp(st)
    } else {
        st
    };
    assert(framed(sta));
    assert(top_ch(sta.live) == Some('\n') || top_ch(sta.live) == Some(' '));
    let stb = match sta.lc_active {
        Some((_, loc)) => StateModel {
            lc_active: None,
            com: win_empty(),
            ..push_issue(sta, Some(loc), IssueType::Error, IssueDesc::MultilineCommentNotClosed)
        },
        None => sta,
    };
    let stc = match stb.quot_active {
        Some((q, qloc)) => StateModel {
            quot_active: None,
            ..push_issue(stb, Some(qloc), IssueType::Error, IssueDesc::QuotationMarkNotClosed(q))
        },
        None => stb,
    };
    assert(framed(stc));
    assert(stc.lc_active is None && stc.quot_active is None);
    assert(top_ch(stc.live) == Some('\n') || top_ch(stc.live) == Some(' '));
    lemma_step_framed(p, stc, '\n');
    let stq = step_sp(p, stc, '\n');
    assert(stq.live.s2 is Some && stq.live.s2.unwrap().ch == '\n'
        && !stq.live.s2.unwrap().quoted);
    assert(stq.lc_active is None && stq.quot_active is None);
    lemma_drain_last_nl(stq);
    assert(finish_sp(p, st) == drain_sp(stq));
}

/// The normalized text is framed by newlines: for every input and every
/// configuration it is nonempty, begins with a newline and ends with a
/// newline.
#[verifier::rlimit(100)]
pub proof fn lemma_output_framed(p: Params, fname: Seq<char>, file: Seq<char>)
    ensures
        output_sp(p, fname, file).new_file.len() > 0,
        output_sp(p, fname, file).new_file.first() == '\n',
        output_sp(p, fname, file).new_file.last() == '\n',
{
    let st0 = init_sp(p, file);
    let st1 = step_sp(p, st0, '\n');
    assert(framed(st1));
    lemma_feed_framed(p, st1, file);
    let st2 = feed_sp(p, st1, file);
    lemma_two_nl_top(p, st2);
    let t2 = step_sp(p, step_sp(p, st2, '\n'), '\n');
    lemma_finish_last_nl(p, t2);
    assert(transform_sp(p, file) == finish_sp(p, t2));
}


// ---------------------------------------------------------------------
// No whitespace runs in the output, for sources without literals.
// ---------------------------------------------------------------------

/// No run of whitespace: never two spaces in a row, never two newlines in
/// a row, and no space right after a newline.
pub open spec fn no_ws_run(t: Seq<char>) -> bool {
    forall|i: int|
        0 <= i < t.len() - 1 ==> ((#[trigger] t[i]) == ' ' ==> t[i + 1] != ' ') && (t[i] == '\n'
            ==> t[i + 1] != '\n' && t[i + 1] != ' ')
}

pub open spec fn slot_unquoted(sl: Option<Entry>) -> bool {
    sl is Some ==> !sl.unwrap().quoted
}

/// No literal is open, nothing in the live window came from one, and the
/// output so far has no whitespace runs.
pub open spec fn clean(st: StateModel) -> bool {
    &&& st.quot_active is None
    &&& slot_unquoted(st.live.s0)
    &&& slot_unquoted(st.live.s1)
    &&& slot_unquoted(st.live.s2)
    &&& no_ws_run(st.out)
    &&& (st.out.len() > 0 ==> st.last_add is Some)
}

#[verifier::rlimit(100)]
pub proof fn lemma_insert_clean(st: StateModel, b: Option<Entry>)
    requires
        framed(st),
        clean(st),
        slot_unquoted(b),
    ensures
        clean(insert_sp(st, b)),
{
    let r = insert_sp(st, b);
    let w = cur_of(st);
    match w.s0 {
        None => {
            assert(clean(r));
        },
        Some(e) => {
            if st.lc_active is Some {
                assert(clean(r));
            } else {
                assert(!e.quoted);
                let ls1 = ls_update(st, w);
                let c0 = if ls1 == LineState::FoundNonHash && e.ch == '\n' && st.last_add
                    is Some {
                    ' '
                } else {
                    e.ch
                };
                let keep = ((st.last_add != Some(' ') && st.last_add != Some('\n')) || !is_ws(c0))
                    && (c0 != '\n' || st.last_add != Some('\n'));
                if keep {
                    let c1 = if is_ws(c0) {
                        ' '
                    } else {
                        c0
                    };
                    if c1 == '\n' && st.last_add == Some(' ') {
                        assert(st.out.len() >= 2);
                        assert(r.out == st.out.drop_last().push('\n'));
                        assert(st.out[st.out.len() - 2] != '\n');
                        assert forall|i: int| 0 <= i < r.out.len() - 1 implies ((
                        #[trigger] r.out[i]) == ' ' ==> r.out[i + 1] != ' ') && (r.out[i] == '\n'
                            ==> r.out[i + 1] != '\n' && r.out[i + 1] != ' ') by {
                            if i < st.out.len() - 2 {
                                assert(r.out[i] == st.out[i]);
                                assert(r.out[i + 1] == st.out[i + 1]);
                            } else {
                                assert(r.out[i] == st.out[st.out.len() - 2]);
                                assert(r.out[i + 1] == '\n');
                            }
                        }
                        assert(clean(r));
                    } else {
                        assert(r.out == st.out.push(c1));
                        assert(st.out.len() > 0 ==> st.last_add == Some(st.out.last()));
                        assert(st.out.len() > 0 && st.out.last() == ' ' ==> c1 != ' ');
                        assert(st.out.len() > 0 && st.out.last() == '\n' ==> (c1 != '\n' && c1
                            != ' '));
                        assert forall|i: int| 0 <= i < r.out.len() - 1 implies ((
                        #[trigger] r.out[i]) == ' ' ==> r.out[i + 1] != ' ') && (r.out[i] == '\n'
                            ==> r.out[i + 1] != '\n' && r.out[i + 1] != ' ') by {
                            if i < st.out.len() - 1 {
                                assert(r.out[i] == st.out[i]);
                                assert(r.out[i + 1] == st.out[i + 1]);
                            } else {
                                assert(r.out[i] == st.out.last());
                                assert(r.out[i + 1] == c1);
                            }
                        }
                        assert(clean(r));
                    }
                } else {
                    assert(r.out == st.out);
                    assert(clean(r));
                }
            }
        },
    }
}

/// Every step on a character that cannot open a literal keeps the state
/// clean.
#[verifier::rlimit(100)]
pub proof fn lemma_step_clean(p: Params, st: StateModel, b: char)
    requires
        framed(st),
        clean(st),
        b != '"',
        b != '\'',
    ensures
        clean(step_sp(p, st, b)),
{
    let sta = StateModel {
        cloc: SrcLoc { line: st.cloc.line, col: (st.cloc.col + 1) as usize },
        ..st
    };
    assert(framed(sta));
    assert(clean(sta));
    if tri_fires(sta, b) && !crate::model::trigraphs_ignored(p) {
        assert(clean(step_sp(p, st, b)));
    } else {
        lemma_step_rest_clean(p, sta, b, tri_fires(sta, b));
    }
}

#[verifier::rlimit(100)]
pub proof fn lemma_step_rest_clean(p: Params, st: StateModel, b: char, tri: bool)
    requires
        framed(st),
        clean(st),
        b != '"',
        b != '\'',
    ensures
        clean(step_rest_sp(p, st, b, tri)),
{
    // no literal is open and `b` cannot open one, so the quote tracker
    // stands still
    let stb = st;
    assert(step_rest_sp(p, st, b, tri) == step_rest_sp(p, stb, b, tri));
    if b == '\n' {
        if top_ch(cur_of(stb)) != Some('\\') {
            let stc = if (match stb.lc_active {
                Some((k, _)) => k == CommentType::SingleLine,
                None => false,
            }) {
                lemma_drain_com_keeps(stb);
                end_comment_sp(stb)
            } else {
                stb
            };
            assert(framed(stc));
            assert(clean(stc));
            let ste = StateModel {
                cloc: SrcLoc { line: (stc.cloc.line + 1) as usize, col: 0 },
                ..stc
            };
            assert(framed(ste));
            assert(clean(ste));
            lemma_insert_clean(ste, Some(Entry { ch: '\n', loc: ste.cloc, quoted: false }));
        } else if !stb.non_multimerge {
            assert(clean(step_rest_sp(p, st, b, tri)));
        } else {
            lemma_insert_clean(stb, Some(Entry { ch: '\n', loc: stb.cloc, quoted: false }));
        }
    } else if tri {
        let st_d = push_issue(
            stb,
            Some(stb.live.s1.unwrap().loc),
            IssueType::Warning,
            IssueDesc::TrigraphPresentAndIgnored(b),
        );
        assert(framed(st_d));
        assert(clean(st_d));
        lemma_insert_clean(
            st_d,
            Some(Entry { ch: b, loc: st_d.cloc, quoted: st_d.quot_active is Some && b != '\n' }),
        );
        assert(clean(step_rest_sp(p, st, b, tri)));
    } else {
        lemma_insert_clean(
            stb,
            Some(Entry { ch: b, loc: stb.cloc, quoted: stb.quot_active is Some && b != '\n' }),
        );
        assert(clean(step_rest_sp(p, st, b, tri)));
    }
}

pub open spec fn quote_free(s: Seq<char>) -> bool {
    forall|i: int| 0 <= i < s.len() ==> (#[trigger] s[i]) != '"' && s[i] != '\''
}

pub proof fn lemma_feed_clean(p: Params, st: StateModel, s: Seq<char>)
    requires
        framed(st),
        clean(st),
        quote_free(s),
    ensures
        clean(feed_sp(p, st, s)),
        framed(feed_sp(p, st, s)),
    decreases s.len(),
{
    if s.len() > 0 {
        assert(s[0] != '"' && s[0] != '\'');
        lemma_step_clean(p, st, s.first());
        lemma_step_framed(p, st, s.first());
        let rest = s.drop_first();
        assert(quote_free(rest)) by {
            assert forall|i: int| 0 <= i < rest.len() implies (#[trigger] rest[i]) != '"'
                && rest[i] != '\'' by {
                assert(rest[i] == s[i + 1]);
            }
        }
        lemma_feed_clean(p, step_sp(p, st, s.first()), rest);
    }
}

#[verifier::rlimit(100)]
pub proof fn lemma_finish_clean(p: Params, st: StateModel)
    requires
        framed(st),
        clean(st),
    ensures
        clean(finish_sp(p, st)),
{
    let sta = if (match st.lc_active {
        Some((k, _)) => k == CommentType::SingleLine,
        None => false,
    }) {
        lemma_drain_com_keeps(st);
        end_comment_sp(st)
    } else {
        st
    };
    assert(framed(sta));
    assert(clean(sta));
    let stb = match sta.lc_active {
        Some((_, loc)) => StateModel {
            lc_active: None,
            com: win_empty(),
            ..push_issue(sta, Some(loc), IssueType::Error, IssueDesc::MultilineCommentNotClosed)
        },
        None => sta,
    };
    assert(framed(stb));
    assert(clean(stb));
    assert(stb.quot_active is None);
    lemma_step_clean(p, stb, '\n');
    lemma_step_framed(p, stb, '\n');
    let stq = step_sp(p, stb, '\n');
    lemma_insert_clean(stq, None);
    lemma_insert_framed(stq, None);
    lemma_insert_clean(insert_sp(stq, None), None);
    lemma_insert_framed(insert_sp(stq, None), None);
    lemma_insert_clean(insert_sp(insert_sp(stq, None), None), None);
    assert(finish_sp(p, st) == drain_sp(stq));
}

/// For a source without string or character literals, no run of
/// whitespace survives anywhere in the normalized text: never two spaces
/// in a row, and never two newlines in a row. (Inside literals the text
/// is kept verbatim, runs included, so the restriction is necessary.)
#[verifier::rlimit(100)]
pub proof fn lemma_no_whitespace_runs(p: Params, fname: Seq<char>, file: Seq<char>, i: int)
    requires
        quote_free(file),
        0 <= i < output_sp(p, fname, file).new_file.len() - 1,
    ensures
        !(output_sp(p, fname, file).new_file[i] == ' ' && output_sp(p, fname, file).new_file[i
            + 1] == ' '),
        !(output_sp(p, fname, file).new_file[i] == '\n' && output_sp(p, fname, file).new_file[i
            + 1] == '\n'),
{
    let st0 = init_sp(p, file);
    let st1 = step_sp(p, st0, '\n');
    assert(framed(st1));
    assert(clean(st1));
    lemma_feed_clean(p, st1, file);
    let st2 = feed_sp(p, st1, file);
    lemma_step_clean(p, st2, '\n');
    lemma_step_framed(p, st2, '\n');
    let st3 = step_sp(p, st2, '\n');
    lemma_step_clean(p, st3, '\n');
    lemma_step_framed(p, st3, '\n');
    let st4 = step_sp(p, st3, '\n');
    lemma_finish_clean(p, st4);
    assert(no_ws_run(transform_sp(p, file).out));
}

} // verus!