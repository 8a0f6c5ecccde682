//! Idempotent rewriting of the SSH client configuration.
//!
//! A published route is a block of lines delimited by marker comments
//! that carry the record's name. Publishing first deletes every block
//! with the same markers, together with the blank lines that followed
//! it, and then appends the fresh block, so publishing the same name
//! again replaces the old block instead of piling up copies.

use vstd::prelude::*;

use crate::strutil::str_eq;

verus! {

/// The comment line that opens a block published under `name`.
pub open spec fn start_marker(name: Seq<char>) -> Seq<char> {
    "# code-remote: start "@ + name
}

/// The comment line that closes a block published under `name`.
pub open spec fn end_marker(name: Seq<char>) -> Seq<char> {
    "# code-remote: end "@ + name
}

/// The text contains no line break.
pub open spec fn no_nl(s: Seq<char>) -> bool {
    forall|i: int| 0 <= i < s.len() ==> s[i] != '\n'
}

/// No line of the sequence contains a line break.
pub open spec fn no_nl_lines(ls: Seq<Seq<char>>) -> bool {
    forall|i: int| 0 <= i < ls.len() ==> no_nl(#[trigger] ls[i])
}

/// The lines of a text, split at `'\n'`; a trailing line break yields
/// a final empty line, and the empty text is one empty line.
pub open spec fn spec_lines(s: Seq<char>) -> Seq<Seq<char>>
    decreases s.len(),
{
    if s.len() == 0 {
        seq![Seq::<char>::empty()]
    } else {
        let rest = spec_lines(s.skip(1));
        if s[0] == '\n' {
            seq![Seq::<char>::empty()] + rest
        } else {
            seq![seq![s[0]] + rest[0]] + rest.skip(1)
        }
    }
}

/// The lines joined back with `'\n'` between them.
pub open spec fn spec_join(ls: Seq<Seq<char>>) -> Seq<char>
    decreases ls.len(),
{
    if ls.len() == 0 {
        Seq::<char>::empty()
    } else if ls.len() == 1 {
        ls[0]
    } else {
        ls[0] + seq!['\n'] + spec_join(ls.skip(1))
    }
}

/// Splitting a line-break-free text yields that text as its one line.
pub proof fn lemma_lines_single(x: Seq<char>)
    requires
        no_nl(x),
    ensures
        spec_lines(x) == seq![x],
    decreases x.len(),
{
    if x.len() > 0 {
        assert(no_nl(x.skip(1)));
        lemma_lines_single(x.skip(1));
        assert(seq![x[0]] + x.skip(1) =~= x);
        assert(spec_lines(x) =~= seq![x]);
    } else {
        assert(x =~= Seq::<char>::empty());
        assert(spec_lines(x) =~= seq![x]);
    }
}

/// Splitting starts over after the first line break.
pub proof fn lemma_lines_concat(x: Seq<char>, y: Seq<char>)
    requires
        no_nl(x),
    ensures
        spec_lines(x + seq!['\n'] + y) == seq![x] + spec_lines(y),
    decreases x.len(),
{
    let s = x + seq!['\n'] + y;
    if x.len() == 0 {
        assert(x =~= Seq::<char>::empty());
        assert(s =~= seq!['\n'] + y);
        assert(s[0] == '\n');
        assert(s.skip(1) =~= y);
        assert(spec_lines(s) =~= seq![x] + spec_lines(y));
    } else {
        assert(no_nl(x.skip(1)));
        lemma_lines_concat(x.skip(1), y);
        assert(s[0] == x[0] && x[0] != '\n');
        assert(s.skip(1) =~= x.skip(1) + seq!['\n'] + y);
        let rest = spec_lines(s.skip(1));
        assert(rest == seq![x.skip(1)] + spec_lines(y));
        assert(rest[0] == x.skip(1));
        assert(seq![s[0]] + rest[0] =~= x);
        assert(rest.skip(1) =~= spec_lines(y));
        assert(spec_lines(s) =~= seq![x] + spec_lines(y));
    }
}

/// Splitting is the inverse of joining line-break-free lines.
pub proof fn lemma_lines_of_join(ls: Seq<Seq<char>>)
    requires
        ls.len() >= 1,
        no_nl_lines(ls),
    ensures
        spec_lines(spec_join(ls)) == ls,
    decreases ls.len(),
{
    if ls.len() == 1 {
        lemma_lines_single(ls[0]);
        assert(seq![ls[0]] =~= ls);
    } else {
        assert(no_nl_lines(ls.skip(1)));
        lemma_lines_of_join(ls.skip(1));
        lemma_lines_concat(ls[0], spec_join(ls.skip(1)));
        assert(seq![ls[0]] + ls.skip(1) =~= ls);
    }
}

/// Every text splits into at least one line, none of which contains a
/// line break.
pub proof fn lemma_lines_no_nl(s: Seq<char>)
    ensures
        no_nl_lines(spec_lines(s)),
        spec_lines(s).len() >= 1,
    decreases s.len(),
{
    if s.len() > 0 {
        lemma_lines_no_nl(s.skip(1));
        let rest = spec_lines(s.skip(1));
        if s[0] == '\n' {
            assert forall|k: int| 0 <= k < spec_lines(s).len() implies no_nl(
                #[trigger] spec_lines(s)[k],
            ) by {
                if k > 0 {
                    assert(spec_lines(s)[k] == rest[k - 1]);
                }
            }
        } else {
            assert(no_nl(rest[0]));
            assert forall|k: int| 0 <= k < spec_lines(s).len() implies no_nl(
                #[trigger] spec_lines(s)[k],
            ) by {
                if k == 0 {
                    assert(spec_lines(s)[0] == seq![s[0]] + rest[0]);
                } else {
                    assert(spec_lines(s)[k] == rest.skip(1)[k - 1]);
                    assert(rest.skip(1)[k - 1] == rest[k]);
                }
            }
        }
    }
}

/// The position of the first line equal to `target`.
pub open spec fn find_line(ls: Seq<Seq<char>>, target: Seq<char>) -> Option<int>
    decreases ls.len(),
{
    if ls.len() == 0 {
        Option::None
    } else if ls[0] == target {
        Option::Some(0int)
    } else {
        match find_line(ls.skip(1), target) {
            Option::None => Option::None,
            Option::Some(j) => Option::Some(j + 1),
        }
    }
}

/// What `find_line` returns: the first match, or nothing anywhere.
pub proof fn lemma_find_line_props(ls: Seq<Seq<char>>, target: Seq<char>)
    ensures
        match find_line(ls, target) {
            Option::Some(k) => 0 <= k < ls.len() && ls[k] == target && (forall|m: int|
                0 <= m < k ==> ls[m] != target),
            Option::None => forall|m: int| 0 <= m < ls.len() ==> ls[m] != target,
        },
    decreases ls.len(),
{
    if ls.len() > 0 && ls[0] != target {
        lemma_find_line_props(ls.skip(1), target);
        match find_line(ls.skip(1), target) {
            Option::Some(j) => {
                assert(ls[j + 1] == ls.skip(1)[j]);
                assert forall|m: int| 0 <= m < j + 1 implies ls[m] != target by {
                    if m > 0 {
                        assert(ls.skip(1)[m - 1] != target);
                    }
                }
            },
            Option::None => {
                assert forall|m: int| 0 <= m < ls.len() implies ls[m] != target by {
                    if m > 0 {
                        assert(ls.skip(1)[m - 1] != target);
                    }
                }
            },
        }
    }
}

/// A first match determines what `find_line` returns.
pub proof fn lemma_find_line_eq(ls: Seq<Seq<char>>, target: Seq<char>, k: int)
    requires
        0 <= k < ls.len(),
        ls[k] == target,
        forall|m: int| 0 <= m < k ==> ls[m] != target,
    ensures
        find_line(ls, target) == Option::Some(k),
    decreases k,
{
    if k > 0 {
        lemma_find_line_eq(ls.skip(1), target, k - 1);
    }
}

/// Absence of a match determines that `find_line` returns nothing.
pub proof fn lemma_find_line_none(ls: Seq<Seq<char>>, target: Seq<char>)
    requires
        forall|m: int| 0 <= m < ls.len() ==> ls[m] != target,
    ensures
        find_line(ls, target) == Option::None::<int>,
    decreases ls.len(),
{
    if ls.len() > 0 {
        lemma_find_line_none(ls.skip(1), target);
    }
}

/// Leading empty lines dropped.
pub open spec fn skip_empty(ls: Seq<Seq<char>>) -> Seq<Seq<char>>
    decreases ls.len(),
{
    if ls.len() > 0 && ls[0].len() == 0 {
        skip_empty(ls.skip(1))
    } else {
        ls
    }
}

/// Dropping leading empty lines never lengthens a sequence.
pub proof fn lemma_skip_empty_len(ls: Seq<Seq<char>>)
    ensures
        skip_empty(ls).len() <= ls.len(),
    decreases ls.len(),
{
    if ls.len() > 0 && ls[0].len() == 0 {
        lemma_skip_empty_len(ls.skip(1));
    }
}

/// The lines with every block published under `name` removed: from
/// each line reading the start marker through the next line reading
/// the end marker, together with the blank lines that follow the
/// block. A start marker with no closing marker after it is left in
/// place.
pub open spec fn spec_remove_blocks(ls: Seq<Seq<char>>, name: Seq<char>) -> Seq<Seq<char>>
    decreases ls.len(),
    via spec_remove_blocks_decreases
{
    if ls.len() == 0 {
        Seq::<Seq<char>>::empty()
    } else if ls[0] == start_marker(name) {
        match find_line(ls.skip(1), end_marker(name)) {
            Option::Some(j) => spec_remove_blocks(
                skip_empty(ls.skip(j + 2)),
                name,
            ),
            Option::None => seq![ls[0]] + spec_remove_blocks(ls.skip(1), name),
        }
    } else {
        seq![ls[0]] + spec_remove_blocks(ls.skip(1), name)
    }
}

#[via_fn]
proof fn spec_remove_blocks_decreases(ls: Seq<Seq<char>>, name: Seq<char>) {
    if ls.len() > 0 && ls[0] == start_marker(name) {
        lemma_find_line_props(ls.skip(1), end_marker(name));
        match find_line(ls.skip(1), end_marker(name)) {
            Option::Some(j) => {
                lemma_skip_empty_len(ls.skip(j + 2));
            },
            Option::None => {},
        }
    }
}

/// How often `target` occurs among the lines.
pub open spec fn count_eq(ls: Seq<Seq<char>>, target: Seq<char>) -> nat
    decreases ls.len(),
{
    if ls.len() == 0 {
        0
    } else {
        (if ls[0] == target {
            1nat
        } else {
            0nat
        }) + count_eq(ls.skip(1), target)
    }
}

/// The lines hold no marker of `name`.
pub open spec fn marker_free(ls: Seq<Seq<char>>, name: Seq<char>) -> bool {
    forall|i: int|
        0 <= i < ls.len() ==> (#[trigger] ls[i]) != start_marker(name) && ls[i] != end_marker(
            name,
        )
}

/// A well-formed published block: the start marker, some lines that
/// are no markers themselves, and the end marker.
pub open spec fn wf_block(name: Seq<char>, ls: Seq<Seq<char>>) -> bool {
    &&& ls.len() >= 2
    &&& ls[0] == start_marker(name)
    &&& ls.last() == end_marker(name)
    &&& forall|i: int|
        0 < i < ls.len() - 1 ==> (#[trigger] ls[i]) != start_marker(name) && ls[i] != end_marker(
            name,
        )
    &&& ls[0] != end_marker(name)
    &&& ls.last() != start_marker(name)
}

/// The published text: the configuration with every block of `name`
/// removed, the fresh block, and a final line break.
pub open spec fn spec_upsert(cfg: Seq<char>, name: Seq<char>, block: Seq<char>) -> Seq<char> {
    spec_join(
        spec_remove_blocks(spec_lines(cfg), name) + spec_lines(block) + seq![
            Seq::<char>::empty(),
        ],
    )
}

/// Removing blocks from marker-free lines changes nothing.
pub proof fn lemma_remove_marker_free(ls: Seq<Seq<char>>, name: Seq<char>)
    requires
        marker_free(ls, name),
    ensures
        spec_remove_blocks(ls, name) == ls,
    decreases ls.len(),
{
    if ls.len() > 0 {
        assert(marker_free(ls.skip(1), name)) by {
            assert(forall|i: int| 0 <= i < ls.skip(1).len() ==> ls.skip(1)[i] == ls[i + 1]);
        }
        lemma_remove_marker_free(ls.skip(1), name);
        assert(seq![ls[0]] + ls.skip(1) =~= ls);
    }
}

/// Dropping leading empty lines keeps the lines marker-free.
proof fn lemma_skip_empty_marker_free(ls: Seq<Seq<char>>, name: Seq<char>)
    requires
        marker_free(ls, name),
    ensures
        marker_free(skip_empty(ls), name),
    decreases ls.len(),
{
    if ls.len() > 0 && ls[0].len() == 0 {
        assert(marker_free(ls.skip(1), name)) by {
            assert(forall|i: int| 0 <= i < ls.skip(1).len() ==> ls.skip(1)[i] == ls[i + 1]);
        }
        lemma_skip_empty_marker_free(ls.skip(1), name);
    }
}

/// Removing blocks from marker-free lines followed by one well-formed
/// block and a marker-free tail keeps exactly the lines around the
/// block, with the blank lines after the block dropped.
pub proof fn lemma_remove_around_block(
    ls1: Seq<Seq<char>>,
    b: Seq<Seq<char>>,
    ls2: Seq<Seq<char>>,
    name: Seq<char>,
)
    requires
        marker_free(ls1, name),
        wf_block(name, b),
        marker_free(ls2, name),
    ensures
        spec_remove_blocks(ls1 + b + ls2, name) == ls1 + skip_empty(ls2),
    decreases ls1.len(),
{
    let all = ls1 + b + ls2;
    if ls1.len() == 0 {
        assert(all =~= b + ls2);
        assert(all[0] == b[0]);
        assert(all[0] == start_marker(name));
        let tail = all.skip(1);
        let k = b.len() - 2;
        assert(tail[k] == b[b.len() - 1]);
        assert(tail[k] == end_marker(name));
        assert(forall|m: int| 0 <= m < k ==> tail[m] == b[m + 1]);
        assert(forall|m: int| 0 <= m < k ==> tail[m] != end_marker(name));
        lemma_find_line_eq(tail, end_marker(name), k);
        assert(find_line(all.skip(1), end_marker(name)) == Option::Some(k));
        assert(all.skip(k + 2) =~= ls2);
        lemma_skip_empty_marker_free(ls2, name);
        lemma_remove_marker_free(skip_empty(ls2), name);
        assert(spec_remove_blocks(all, name) == skip_empty(ls2));
        assert(ls1 + skip_empty(ls2) =~= skip_empty(ls2));
    } else {
        assert(all[0] == ls1[0]);
        assert(all[0] != start_marker(name));
        assert(all.skip(1) =~= ls1.skip(1) + b + ls2);
        assert(marker_free(ls1.skip(1), name)) by {
            assert(forall|i: int| 0 <= i < ls1.skip(1).len() ==> ls1.skip(1)[i] == ls1[i + 1]);
        }
        lemma_remove_around_block(ls1.skip(1), b, ls2, name);
        assert(spec_remove_blocks(all, name) == seq![ls1[0]] + (ls1.skip(1) + skip_empty(ls2)));
        assert(seq![ls1[0]] + (ls1.skip(1) + skip_empty(ls2)) =~= ls1 + skip_empty(ls2));
    }
}

/// Occurrence counts add up over concatenation.
pub proof fn lemma_count_concat(a: Seq<Seq<char>>, b: Seq<Seq<char>>, target: Seq<char>)
    ensures
        count_eq(a + b, target) == count_eq(a, target) + count_eq(b, target),
    decreases a.len(),
{
    if a.len() == 0 {
        assert(a + b =~= b);
    } else {
        assert((a + b).skip(1) =~= a.skip(1) + b);
        lemma_count_concat(a.skip(1), b, target);
    }
}

/// Lines without a match count zero.
pub proof fn lemma_count_zero(ls: Seq<Seq<char>>, target: Seq<char>)
    requires
        forall|i: int| 0 <= i < ls.len() ==> ls[i] != target,
    ensures
        count_eq(ls, target) == 0,
    decreases ls.len(),
{
    if ls.len() > 0 {
        assert(forall|i: int| 0 <= i < ls.skip(1).len() ==> ls.skip(1)[i] == ls[i + 1]);
        lemma_count_zero(ls.skip(1), target);
    }
}

/// Lines whose only match is the first count one.
pub proof fn lemma_count_one(ls: Seq<Seq<char>>, target: Seq<char>)
    requires
        ls.len() >= 1,
        ls[0] == target,
        forall|i: int| 0 < i < ls.len() ==> ls[i] != target,
    ensures
        count_eq(ls, target) == 1,
{
    assert(forall|i: int| 0 <= i < ls.skip(1).len() ==> ls.skip(1)[i] == ls[i + 1]);
    lemma_count_zero(ls.skip(1), target);
}

proof fn lemma_marker_lits()
    ensures
        start_marker(Seq::<char>::empty()).len() > 0,
        forall|n: Seq<char>| (#[trigger] start_marker(n)).len() > n.len(),
        forall|n: Seq<char>| (#[trigger] end_marker(n)).len() > n.len(),
{
    reveal_strlit("# code-remote: start ");
    reveal_strlit("# code-remote: end ");
}

/// Publishing a block twice in a row leaves the configuration exactly
/// as one publish of the second block leaves it, with exactly one
/// start marker of that name in the text.
pub proof fn lemma_publish_twice(cfg: Seq<char>, name: Seq<char>, b1: Seq<char>, b2: Seq<char>)
    requires
        marker_free(spec_lines(cfg), name),
        wf_block(name, spec_lines(b1)),
        wf_block(name, spec_lines(b2)),
    ensures
        spec_upsert(spec_upsert(cfg, name, b1), name, b2) == spec_upsert(cfg, name, b2),
        count_eq(
            spec_lines(spec_upsert(spec_upsert(cfg, name, b1), name, b2)),
            start_marker(name),
        ) == 1,
{
    lemma_marker_lits();
    lemma_lines_no_nl(cfg);
    lemma_lines_no_nl(b1);
    lemma_lines_no_nl(b2);
    let lc = spec_lines(cfg);
    let lb1 = spec_lines(b1);
    let lb2 = spec_lines(b2);
    let blank = seq![Seq::<char>::empty()];
    lemma_remove_marker_free(lc, name);
    let u1 = spec_upsert(cfg, name, b1);
    assert(u1 == spec_join(lc + lb1 + blank));
    assert(no_nl_lines(lc + lb1 + blank)) by {
        assert(forall|i: int|
            0 <= i < (lc + lb1 + blank).len() ==> (lc + lb1 + blank)[i] == (if i < lc.len() {
                lc[i]
            } else if i < lc.len() + lb1.len() {
                lb1[i - lc.len()]
            } else {
                Seq::<char>::empty()
            }));
    }
    lemma_lines_of_join(lc + lb1 + blank);
    assert(spec_lines(u1) == lc + lb1 + blank);
    assert(marker_free(blank, name)) by {
        assert(blank[0].len() == 0);
        assert(start_marker(name).len() > 0);
        assert(end_marker(name).len() > 0);
    }
    lemma_remove_around_block(lc, lb1, blank, name);
    assert(spec_lines(u1) =~= lc + lb1 + blank);
    assert(spec_remove_blocks(spec_lines(u1), name) == lc + skip_empty(blank));
    assert(blank.skip(1) =~= Seq::<Seq<char>>::empty());
    assert(skip_empty(blank) == skip_empty(blank.skip(1)));
    assert(skip_empty(Seq::<Seq<char>>::empty()) =~= Seq::<Seq<char>>::empty());
    assert(skip_empty(blank) =~= Seq::<Seq<char>>::empty());
    assert(lc + skip_empty(blank) =~= lc);
    let u2 = spec_upsert(u1, name, b2);
    assert(u2 == spec_join(spec_remove_blocks(spec_lines(u1), name) + lb2 + blank));
    assert(spec_remove_blocks(spec_lines(u1), name) + lb2 + blank =~= lc + lb2 + blank);
    assert(u2 == spec_upsert(cfg, name, b2));
    // the published text holds exactly one start marker
    assert(no_nl_lines(lc + lb2 + blank)) by {
        assert(forall|i: int|
            0 <= i < (lc + lb2 + blank).len() ==> (lc + lb2 + blank)[i] == (if i < lc.len() {
                lc[i]
            } else if i < lc.len() + lb2.len() {
                lb2[i - lc.len()]
            } else {
                Seq::<char>::empty()
            }));
    }
    lemma_lines_of_join(lc + lb2 + blank);
    assert(spec_lines(u2) == lc + lb2 + blank);
    lemma_count_concat(lc + lb2, blank, start_marker(name));
    lemma_count_concat(lc, lb2, start_marker(name));
    lemma_count_zero(lc, start_marker(name));
    lemma_count_one(lb2, start_marker(name));
    assert(count_eq(blank, start_marker(name)) == 0) by {
        lemma_count_zero(blank, start_marker(name));
    }
    assert((lc + lb2) + blank =~= lc + lb2 + blank);
}

/// Dropping leading empty lines keeps every line free of line breaks.
proof fn lemma_skip_empty_no_nl(ls: Seq<Seq<char>>)
    requires
        no_nl_lines(ls),
    ensures
        no_nl_lines(skip_empty(ls)),
    decreases ls.len(),
{
    if ls.len() > 0 && ls[0].len() == 0 {
        assert(no_nl_lines(ls.skip(1))) by {
            assert(forall|i: int| 0 <= i < ls.skip(1).len() ==> ls.skip(1)[i] == ls[i + 1]);
        }
        lemma_skip_empty_no_nl(ls.skip(1));
    }
}

/// Publishing a block twice leaves the configuration exactly as one
/// publish of the second block leaves it, also when the configuration
/// already holds one published block of the name — the normal re-run
/// case. The configuration's lines are given split as the marker-free
/// lines before the old block, the old block, and the marker-free
/// lines after it.
pub proof fn lemma_republish_twice(
    cfg: Seq<char>,
    name: Seq<char>,
    ls1: Seq<Seq<char>>,
    b0: Seq<Seq<char>>,
    ls2: Seq<Seq<char>>,
    b1: Seq<char>,
    b2: Seq<char>,
)
    requires
        spec_lines(cfg) == ls1 + b0 + ls2,
        marker_free(ls1, name),
        wf_block(name, b0),
        marker_free(ls2, name),
        wf_block(name, spec_lines(b1)),
        wf_block(name, spec_lines(b2)),
    ensures
        spec_upsert(spec_upsert(cfg, name, b1), name, b2) == spec_upsert(cfg, name, b2),
        count_eq(
            spec_lines(spec_upsert(spec_upsert(cfg, name, b1), name, b2)),
            start_marker(name),
        ) == 1,
{
    lemma_marker_lits();
    lemma_lines_no_nl(cfg);
    lemma_lines_no_nl(b1);
    lemma_lines_no_nl(b2);
    let lb1 = spec_lines(b1);
    let lb2 = spec_lines(b2);
    let blank = seq![Seq::<char>::empty()];
    assert(marker_free(blank, name)) by {
        assert(blank[0].len() == 0);
        assert(start_marker(name).len() > 0);
        assert(end_marker(name).len() > 0);
    }
    assert(blank.skip(1) =~= Seq::<Seq<char>>::empty());
    assert(skip_empty(blank) == skip_empty(blank.skip(1)));
    assert(skip_empty(Seq::<Seq<char>>::empty()) =~= Seq::<Seq<char>>::empty());
    assert(skip_empty(blank) =~= Seq::<Seq<char>>::empty());
    // the configuration's parts carry no line break
    assert forall|i: int| 0 <= i < ls1.len() implies no_nl(#[trigger] ls1[i]) by {
        assert(ls1[i] == spec_lines(cfg)[i]);
        assert(no_nl(spec_lines(cfg)[i]));
    }
    assert forall|i: int| 0 <= i < b0.len() implies no_nl(#[trigger] b0[i]) by {
        assert(b0[i] == spec_lines(cfg)[ls1.len() + i]);
        assert(no_nl(spec_lines(cfg)[ls1.len() + i]));
    }
    assert forall|i: int| 0 <= i < ls2.len() implies no_nl(#[trigger] ls2[i]) by {
        assert(ls2[i] == spec_lines(cfg)[ls1.len() + b0.len() + i]);
        assert(no_nl(spec_lines(cfg)[ls1.len() + b0.len() + i]));
    }
    // the first removal keeps exactly the lines around the old block
    lemma_remove_around_block(ls1, b0, ls2, name);
    let kept = ls1 + skip_empty(ls2);
    assert(spec_remove_blocks(spec_lines(cfg), name) == kept);
    lemma_skip_empty_marker_free(ls2, name);
    lemma_skip_empty_no_nl(ls2);
    assert(marker_free(kept, name)) by {
        assert(forall|i: int|
            0 <= i < kept.len() ==> #[trigger] kept[i] == (if i < ls1.len() {
                ls1[i]
            } else {
                skip_empty(ls2)[i - ls1.len()]
            }));
    }
    assert(no_nl_lines(kept)) by {
        assert(forall|i: int|
            0 <= i < kept.len() ==> #[trigger] kept[i] == (if i < ls1.len() {
                ls1[i]
            } else {
                skip_empty(ls2)[i - ls1.len()]
            }));
    }
    // the first publish
    let u1 = spec_upsert(cfg, name, b1);
    assert(u1 == spec_join(kept + lb1 + blank));
    assert(no_nl_lines(kept + lb1 + blank)) by {
        assert(forall|i: int|
            0 <= i < (kept + lb1 + blank).len() ==> (kept + lb1 + blank)[i] == (if i
                < kept.len() {
                kept[i]
            } else if i < kept.len() + lb1.len() {
                lb1[i - kept.len()]
            } else {
                Seq::<char>::empty()
            }));
    }
    lemma_lines_of_join(kept + lb1 + blank);
    assert(spec_lines(u1) == kept + lb1 + blank);
    // the second removal keeps exactly the same lines
    lemma_remove_around_block(kept, lb1, blank, name);
    assert(spec_remove_blocks(spec_lines(u1), name) == kept + skip_empty(blank));
    assert(kept + skip_empty(blank) =~= kept);
    // so the second publish equals a single publish of the second block
    let u2 = spec_upsert(u1, name, b2);
    assert(u2 == spec_join(spec_remove_blocks(spec_lines(u1), name) + lb2 + blank));
    assert(spec_remove_blocks(spec_lines(u1), name) + lb2 + blank =~= kept + lb2 + blank);
    assert(u2 == spec_upsert(cfg, name, b2));
    // and it holds exactly one start marker
    assert(no_nl_lines(kept + lb2 + blank)) by {
        assert(forall|i: int|
            0 <= i < (kept + lb2 + blank).len() ==> (kept + lb2 + blank)[i] == (if i
                < kept.len() {
                kept[i]
            } else if i < kept.len() + lb2.len() {
                lb2[i - kept.len()]
            } else {
                Seq::<char>::empty()
            }));
    }
    lemma_lines_of_join(kept + lb2 + blank);
    assert(spec_lines(u2) == kept + lb2 + blank);
    lemma_count_concat(kept + lb2, blank, start_marker(name));
    lemma_count_concat(kept, lb2, start_marker(name));
    lemma_count_zero(kept, start_marker(name));
    lemma_count_one(lb2, start_marker(name));
    lemma_count_zero(blank, start_marker(name));
    assert((kept + lb2) + blank =~= kept + lb2 + blank);
}

/// Render the comment line that opens a block of `name`.
pub fn start_marker_string(name: &str) -> (r: String)
    ensures
        r@ == start_marker(name@),
{
    let mut r = "# code-remote: start ".to_owned();
    r.append(name);
    r
}

/// Render the comment line that closes a block of `name`.
pub fn end_marker_string(name: &str) -> (r: String)
    ensures
        r@ == end_marker(name@),
{
    let mut r = "# code-remote: end ".to_owned();
    r.append(name);
    r
}

/// Lines with the first of them lengthened by a prefix.
pub open spec fn prepend_first(p: Seq<char>, ls: Seq<Seq<char>>) -> Seq<Seq<char>>
    recommends
        ls.len() >= 1,
{
    seq![p + ls[0]] + ls.skip(1)
}

/// Split a text into its lines.
pub fn split_lines(s: &str) -> (r: Vec<String>)
    ensures
        r@.map_values(|l: String| l@) == spec_lines(s@),
{
    let n = s.unicode_len();
    let mut done: Vec<String> = Vec::new();
    let mut cur = String::new();
    let mut i: usize = 0;
    proof {
        lemma_lines_no_nl(s@);
        assert(s@.skip(0) =~= s@);
        assert(prepend_first(cur@, spec_lines(s@)) =~~= spec_lines(s@));
        assert(done@.map_values(|l: String| l@) + prepend_first(cur@, spec_lines(s@))
            =~= spec_lines(s@));
    }
    while i < n
        invariant
            n == s@.len(),
            i <= n,
            spec_lines(s@) == done@.map_values(|l: String| l@) + prepend_first(
                cur@,
                spec_lines(s@.skip(i as int)),
            ),
        decreases n - i,
    {
        let ghost done0 = done@;
        let ghost cur0 = cur@;
        proof {
            lemma_lines_no_nl(s@.skip(i as int));
            lemma_lines_no_nl(s@.skip(i + 1));
            assert(s@.skip(i as int).len() > 0);
            assert(s@.skip(i as int)[0] == s@[i as int]);
            assert(s@.skip(i as int).skip(1) =~= s@.skip(i + 1));
        }
        let c = s.get_char(i);
        if c == '\n' {
            done.push(cur);
            cur = String::new();
            proof {
                assert(spec_lines(s@.skip(i as int)) == seq![Seq::<char>::empty()] + spec_lines(
                    s@.skip(i + 1),
                ));
                assert(prepend_first(cur0, spec_lines(s@.skip(i as int))) =~= seq![cur0]
                    + spec_lines(s@.skip(i + 1)));
                assert(prepend_first(cur@, spec_lines(s@.skip(i + 1))) =~= spec_lines(
                    s@.skip(i + 1),
                ));
                assert(done@.map_values(|l: String| l@) =~= done0.map_values(|l: String| l@)
                    + seq![cur0]);
                assert(spec_lines(s@) =~= done@.map_values(|l: String| l@) + prepend_first(
                    cur@,
                    spec_lines(s@.skip(i + 1)),
                ));
            }
        } else {
            let piece = s.substring_char(i, i + 1);
            cur.append(piece);
            proof {
                let rest = spec_lines(s@.skip(i + 1));
                assert(spec_lines(s@.skip(i as int)) == seq![seq![s@[i as int]] + rest[0]]
                    + rest.skip(1));
                assert(cur@ == cur0 + seq![s@[i as int]]);
                assert(prepend_first(cur0, spec_lines(s@.skip(i as int))) =~~= prepend_first(
                    cur@,
                    rest,
                ));
                assert(spec_lines(s@) =~= done@.map_values(|l: String| l@) + prepend_first(
                    cur@,
                    spec_lines(s@.skip(i + 1)),
                ));
            }
        }
        i = i + 1;
    }
    let ghost done0 = done@;
    let ghost cur0 = cur@;
    done.push(cur);
    proof {
        assert(s@.skip(n as int) =~= Seq::<char>::empty());
        assert(spec_lines(s@.skip(n as int)) == seq![Seq::<char>::empty()]);
        assert(prepend_first(cur0, spec_lines(s@.skip(n as int))) =~= seq![cur0]);
        assert(done@.map_values(|l: String| l@) =~= done0.map_values(|l: String| l@)
            + seq![cur0]);
        assert(done@.map_values(|l: String| l@) =~= spec_lines(s@));
    }
    done
}

/// Joining grows line by line at the end.
proof fn lemma_join_push(ls: Seq<Seq<char>>, x: Seq<char>)
    ensures
        spec_join(ls.push(x)) == if ls.len() == 0 {
            x
        } else {
            spec_join(ls) + seq!['\n'] + x
        },
    decreases ls.len(),
{
    if ls.len() == 0 {
        assert(ls.push(x).len() == 1);
        assert(ls.push(x)[0] == x);
    } else if ls.len() == 1 {
        assert(ls.push(x)[0] == ls[0]);
        assert(ls.push(x).skip(1) =~= seq![x]);
        assert(spec_join(seq![x]) == x);
        assert(spec_join(ls.push(x)) =~= ls[0] + seq!['\n'] + x);
    } else {
        lemma_join_push(ls.skip(1), x);
        assert(ls.push(x).skip(1) =~= ls.skip(1).push(x));
        assert(ls.push(x)[0] == ls[0]);
        assert(spec_join(ls.push(x)) == ls[0] + seq!['\n'] + spec_join(ls.skip(1).push(x)));
        assert(spec_join(ls.push(x)) =~= spec_join(ls) + seq!['\n'] + x);
    }
}

/// Join lines with `'\n'` between them.
pub fn join_lines(lines: &Vec<String>) -> (r: String)
    ensures
        r@ == spec_join(lines@.map_values(|l: String| l@)),
{
    let mut r = String::new();
    let mut i: usize = 0;
    let n = lines.len();
    while i < n
        invariant
            n == lines@.len(),
            i <= n,
            r@ == spec_join(lines@.map_values(|l: String| l@).take(i as int)),
        decreases n - i,
    {
        let ghost lsv = lines@.map_values(|l: String| l@);
        if i > 0 {
            r.append("\n");
        }
        r.append(lines[i].as_str());
        proof {
            reveal_strlit("\n");
            assert("\n"@ =~= seq!['\n']);
            lemma_join_push(lsv.take(i as int), lsv[i as int]);
            assert(lsv.take(i as int).push(lsv[i as int]) =~= lsv.take(i + 1));
        }
        i = i + 1;
    }
    proof {
        assert(lines@.map_values(|l: String| l@).take(n as int) =~= lines@.map_values(
            |l: String| l@,
        ));
    }
    r
}

/// Delete every block published under `name` from the lines.
pub fn remove_blocks(lines: &Vec<String>, name: &str) -> (r: Vec<String>)
    ensures
        r@.map_values(|l: String| l@) == spec_remove_blocks(
            lines@.map_values(|l: String| l@),
            name@,
        ),
{
    let smark = start_marker_string(name);
    let emark = end_marker_string(name);
    let ghost all = lines@.map_values(|l: String| l@);
    let mut out: Vec<String> = Vec::new();
    let mut i: usize = 0;
    let n = lines.len();
    proof {
        assert(all.skip(0) =~= all);
        assert(out@.map_values(|l: String| l@) =~= Seq::<Seq<char>>::empty());
        assert(Seq::<Seq<char>>::empty() + spec_remove_blocks(all, name@)
            =~= spec_remove_blocks(all, name@));
    }
    while i < n
        invariant
            n == lines@.len(),
            all == lines@.map_values(|l: String| l@),
            i <= n,
            smark@ == start_marker(name@),
            emark@ == end_marker(name@),
            spec_remove_blocks(all, name@) == out@.map_values(|l: String| l@)
                + spec_remove_blocks(all.skip(i as int), name@),
        decreases n - i,
    {
        let ghost rest = all.skip(i as int);
        proof {
            assert(rest.len() > 0);
            assert(rest[0] == all[i as int]);
        }
        if str_eq(lines[i].as_str(), smark.as_str()) {
            // look for the closing marker
            let mut j = i + 1;
            while j < n && !str_eq(lines[j].as_str(), emark.as_str())
                invariant
                    n == lines@.len(),
                    all == lines@.map_values(|l: String| l@),
                    i + 1 <= j <= n,
                    emark@ == end_marker(name@),
                    forall|m: int| i + 1 <= m < j ==> all[m] != end_marker(name@),
                decreases n - j,
            {
                j = j + 1;
            }
            if j < n {
                proof {
                    assert(all[j as int] == end_marker(name@));
                    assert(forall|m: int|
                        0 <= m < j - i - 1 ==> rest.skip(1)[m] == all[i + 1 + m]);
                    assert(rest.skip(1)[j - i - 1] == all[j as int]);
                    lemma_find_line_eq(rest.skip(1), end_marker(name@), j - i - 1);
                    assert(rest.skip((j - i - 1) + 2) =~= all.skip(j + 1));
                    assert(spec_remove_blocks(rest, name@) == spec_remove_blocks(
                        skip_empty(all.skip(j + 1)),
                        name@,
                    ));
                }
                i = j + 1;
                while i < n && lines[i].as_str().is_empty()
                    invariant
                        n == lines@.len(),
                        all == lines@.map_values(|l: String| l@),
                        i <= n,
                        j + 1 <= i,
                        spec_remove_blocks(rest, name@) == spec_remove_blocks(
                            skip_empty(all.skip(i as int)),
                            name@,
                        ),
                    decreases n - i,
                {
                    proof {
                        assert(all.skip(i as int)[0].len() == 0);
                        assert(all.skip(i as int).skip(1) =~= all.skip(i + 1));
                    }
                    i = i + 1;
                }
                proof {
                    if i < n {
                        assert(all.skip(i as int)[0].len() > 0);
                        assert(skip_empty(all.skip(i as int)) == all.skip(i as int));
                    } else {
                        assert(all.skip(i as int) =~= Seq::<Seq<char>>::empty());
                        assert(skip_empty(all.skip(i as int)) == all.skip(i as int));
                    }
                }
            } else {
                proof {
                    assert(forall|m: int|
                        0 <= m < rest.skip(1).len() ==> rest.skip(1)[m] == all[i + 1 + m]);
                    lemma_find_line_none(rest.skip(1), end_marker(name@));
                    assert(spec_remove_blocks(rest, name@) == seq![rest[0]]
                        + spec_remove_blocks(rest.skip(1), name@));
                }
                let ghost out0 = out@;
                out.push(lines[i].clone());
                proof {
                    assert(out@.map_values(|l: String| l@) =~= out0.map_values(|l: String| l@)
                        + seq![all[i as int]]);
                    assert(rest.skip(1) =~= all.skip(i + 1));
                    assert(out0.map_values(|l: String| l@) + (seq![rest[0]]
                        + spec_remove_blocks(all.skip(i + 1), name@)) =~= out@.map_values(
                        |l: String| l@,
                    ) + spec_remove_blocks(all.skip(i + 1), name@));
                }
                i = i + 1;
            }
        } else {
            proof {
                assert(rest[0] != start_marker(name@));
                assert(spec_remove_blocks(rest, name@) == seq![rest[0]] + spec_remove_blocks(
                    rest.skip(1),
                    name@,
                ));
            }
            let ghost out0 = out@;
            out.push(lines[i].clone());
            proof {
                assert(out@.map_values(|l: String| l@) =~= out0.map_values(|l: String| l@)
                    + seq![all[i as int]]);
                assert(rest.skip(1) =~= all.skip(i + 1));
                assert(out0.map_values(|l: String| l@) + (seq![rest[0]] + spec_remove_blocks(
                    all.skip(i + 1),
                    name@,
                )) =~= out@.map_values(|l: String| l@) + spec_remove_blocks(
                    all.skip(i + 1),
                    name@,
                ));
            }
            i = i + 1;
        }
    }
    proof {
        assert(all.skip(n as int) =~= Seq::<Seq<char>>::empty());
        assert(spec_remove_blocks(all.skip(n as int), name@) == Seq::<Seq<char>>::empty());
        assert(out@.map_values(|l: String| l@) + Seq::<Seq<char>>::empty() =~= out@.map_values(
            |l: String| l@,
        ));
    }
    out
}

/// Publish `block` under `name`: delete every block with the same
/// markers, then append the fresh block with a final line break.
pub fn upsert_config_block(config: &str, name: &str, block: &str) -> (r: String)
    ensures
        r@ == spec_upsert(config@, name@, block@),
{
    let cfg_lines = split_lines(config);
    let mut kept = remove_blocks(&cfg_lines, name);
    let ghost kept0 = kept@.map_values(|l: String| l@);
    let block_lines = split_lines(block);
    let mut k: usize = 0;
    let bn = block_lines.len();
    while k < bn
        invariant
            bn == block_lines@.len(),
            k <= bn,
            kept@.map_values(|l: String| l@) =~= kept0 + block_lines@.map_values(
                |l: String| l@,
            ).take(k as int),
        decreases bn - k,
    {
        let ghost keptv = kept@.map_values(|l: String| l@);
        kept.push(block_lines[k].clone());
        proof {
            assert(kept@.map_values(|l: String| l@) =~= keptv + seq![
                block_lines@.map_values(|l: String| l@)[k as int],
            ]);
            assert(block_lines@.map_values(|l: String| l@).take(k + 1) =~= block_lines@
                .map_values(|l: String| l@).take(k as int) + seq![
                block_lines@.map_values(|l: String| l@)[k as int],
            ]);
        }
        k = k + 1;
    }
    let ghost keptv = kept@.map_values(|l: String| l@);
    kept.push(String::new());
    let r = join_lines(&kept);
    proof {
        assert(block_lines@.map_values(|l: String| l@).take(bn as int) =~= block_lines@
            .map_values(|l: String| l@));
        assert(kept@.map_values(|l: String| l@) =~= keptv + seq![Seq::<char>::empty()]);
        assert(kept@.map_values(|l: String| l@) =~= kept0 + spec_lines(block@) + seq![
            Seq::<char>::empty(),
        ]);
    }
    r
}

/// How many lines of the configuration read the start marker of
/// `name`.
pub fn count_start_markers(config: &str, name: &str) -> (r: usize)
    ensures
        r == count_eq(spec_lines(config@), start_marker(name@)),
{
    let lines = split_lines(config);
    let smark = start_marker_string(name);
    let ghost lsv = lines@.map_values(|l: String| l@);
    let mut count: usize = 0;
    let mut i: usize = 0;
    let n = lines.len();
    proof {
        lemma_count_bound(lsv, start_marker(name@));
        assert(lsv.skip(0) =~= lsv);
    }
    while i < n
        invariant
            n == lines@.len(),
            lsv == lines@.map_values(|l: String| l@),
            i <= n,
            smark@ == start_marker(name@),
            count + count_eq(lsv.skip(i as int), start_marker(name@)) == count_eq(
                lsv,
                start_marker(name@),
            ),
            count <= i,
        decreases n - i,
    {
        proof {
            assert(lsv.skip(i as int).len() > 0);
            assert(lsv.skip(i as int)[0] == lsv[i as int]);
            assert(lsv.skip(i as int).skip(1) =~= lsv.skip(i + 1));
        }
        if str_eq(lines[i].as_str(), smark.as_str()) {
            count = count + 1;
        }
        i = i + 1;
    }
    proof {
        assert(lsv.skip(n as int) =~= Seq::<Seq<char>>::empty());
    }
    count
}

/// A count never exceeds the number of lines.
proof fn lemma_count_bound(ls: Seq<Seq<char>>, target: Seq<char>)
    ensures
        count_eq(ls, target) <= ls.len(),
    decreases ls.len(),
{
    if ls.len() > 0 {
        lemma_count_bound(ls.skip(1), target);
    }
}

} // verus!
