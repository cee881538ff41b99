use vstd::prelude::*;
use crate::text::{chars_of, trim_str, trimmed};

verus! {

/// The pieces of `s` between occurrences of `sep`; always at least one piece.
pub open spec fn split_on(s: Seq<char>, sep: char) -> Seq<Seq<char>>
    decreases s.len(),
{
    if s.len() == 0 {
        seq![Seq::<char>::empty()]
    } else {
        let prev = split_on(s.drop_last(), sep);
        if s.last() == sep {
            prev.push(Seq::<char>::empty())
        } else {
            prev.update(prev.len() - 1, prev.last().push(s.last()))
        }
    }
}

/// The pieces joined back with `sep` between them.
pub open spec fn join_with(pieces: Seq<Seq<char>>, sep: char) -> Seq<char>
    decreases pieces.len(),
{
    if pieces.len() == 0 {
        Seq::<char>::empty()
    } else if pieces.len() == 1 {
        pieces[0]
    } else {
        join_with(pieces.drop_last(), sep) + seq![sep] + pieces.last()
    }
}

/// Clipboard text cut into rows on newline and each row into cells on tab,
/// before trimming.
pub open spec fn raw_block(s: Seq<char>) -> Seq<Seq<Seq<char>>> {
    split_on(s, '\n').map_values(|line: Seq<char>| split_on(line, '\t'))
}

/// The block of trimmed cells that clipboard text stands for.
pub open spec fn parsed_block(s: Seq<char>) -> Seq<Seq<Seq<char>>> {
    raw_block(s).map_values(
        |row: Seq<Seq<char>>| row.map_values(|c: Seq<char>| trimmed(c)),
    )
}

/// Tab-separated cells, newline-separated rows.
pub open spec fn block_text(block: Seq<Seq<Seq<char>>>) -> Seq<char> {
    join_with(block.map_values(|row: Seq<Seq<char>>| join_with(row, '\t')), '\n')
}

/// `rows` holds, cell for cell, the strings of `b`.
pub open spec fn block_matches(rows: Seq<Vec<String>>, b: Seq<Seq<Seq<char>>>) -> bool {
    &&& rows.len() == b.len()
    &&& forall|r: int|
        0 <= r < rows.len() ==> #[trigger] rows[r]@.len() == b[r].len() && forall|c: int|
            0 <= c < b[r].len() ==> #[trigger] rows[r]@[c]@ == b[r][c]
}

pub proof fn lemma_split_nonempty(s: Seq<char>, sep: char)
    ensures
        split_on(s, sep).len() >= 1,
    decreases s.len(),
{
    if s.len() > 0 {
        lemma_split_nonempty(s.drop_last(), sep);
    }
}

proof fn lemma_split_push(s: Seq<char>, c: char, sep: char)
    ensures
        split_on(s.push(c), sep) == (if c == sep {
            split_on(s, sep).push(Seq::<char>::empty())
        } else {
            split_on(s, sep).update(
                split_on(s, sep).len() - 1,
                split_on(s, sep).last().push(c),
            )
        }),
{
    assert(s.push(c).drop_last() =~= s);
}

/// Cuts clipboard text into a block of trimmed cells: rows on newline, cells on tab.
pub fn parse_block(text: &str) -> (rows: Vec<Vec<String>>)
    ensures
        block_matches(rows@, parsed_block(text@)),
{
    let cs = chars_of(text);
    let n = cs.len();
    let mut rows: Vec<Vec<String>> = Vec::new();
    let mut cur: Vec<String> = Vec::new();
    let mut start: usize = 0;
    let mut i: usize = 0;
    proof {
        assert(text@.take(0) =~= Seq::<char>::empty());
        reveal_with_fuel(split_on, 2);
    }
    while i < n
        invariant
            cs@ == text@,
            n == cs@.len(),
            start <= i <= n,
            ({
                let rb = raw_block(text@.take(i as int));
                &&& rb.len() == rows@.len() + 1
                &&& forall|r: int|
                    0 <= r < rows@.len() ==> #[trigger] rows@[r]@.len() == rb[r].len() && forall|
                        c: int,
                    |
                        0 <= c < rb[r].len() ==> #[trigger] rows@[r]@[c]@ == trimmed(rb[r][c])
                &&& rb.last().len() == cur@.len() + 1
                &&& forall|c: int|
                    0 <= c < cur@.len() ==> #[trigger] cur@[c]@ == trimmed(rb.last()[c])
                &&& rb.last().last() == text@.subrange(start as int, i as int)
            }),
        decreases n - i,
    {
        let c = cs[i];
        let ghost s0 = text@.take(i as int);
        let ghost rb0 = raw_block(s0);
        let ghost lines0 = split_on(s0, '\n');
        let ghost rows0 = rows@;
        let ghost cur0 = cur@;
        proof {
            assert(text@.take(i + 1) =~= s0.push(c));
            lemma_split_push(s0, c, '\n');
            lemma_split_nonempty(s0, '\n');
            lemma_split_push(lines0.last(), c, '\t');
            lemma_split_nonempty(lines0.last(), '\t');
        }
        if c == '\n' || c == '\t' {
            let piece = text.substring_char(start, i);
            let cell = trim_str(piece);
            cur.push(cell);
            if c == '\n' {
                rows.push(cur);
                cur = Vec::new();
                proof {
                    let rb1 = raw_block(text@.take(i + 1));
                    assert(split_on(Seq::<char>::empty(), '\t') =~= seq![Seq::<char>::empty()]);
                    assert(rb1 =~= rb0.push(seq![Seq::<char>::empty()]));
                    assert(text@.subrange(i + 1, i + 1) =~= Seq::<char>::empty());
                    assert forall|r: int, k: int|
                        0 <= r < rows@.len() && 0 <= k < rb1[r].len() implies #[trigger] rows@[r]@[k]@
                        == trimmed(rb1[r][k]) by {
                        if r < rows0.len() {
                            assert(rows@[r] == rows0[r]);
                            assert(rb1[r] == rb0[r]);
                            assert(rows0[r]@.len() == rb0[r].len());
                            assert(rows0[r]@[k]@ == trimmed(rb0[r][k]));
                        } else {
                            assert(rb1[r] == rb0.last());
                            if k < cur0.len() {
                                assert(rows@[r]@[k] == cur0[k]);
                                assert(cur0[k]@ == trimmed(rb0.last()[k]));
                            } else {
                                assert(rb0.last()[k] == rb0.last().last());
                            }
                        }
                    }
                }
            } else {
                proof {
                    let rb1 = raw_block(text@.take(i + 1));
                    assert(rb1 =~= rb0.update(rb0.len() - 1, rb0.last().push(Seq::<char>::empty())));
                    assert(text@.subrange(i + 1, i + 1) =~= Seq::<char>::empty());
                }
            }
            start = i + 1;
        } else {
            proof {
                let rb1 = raw_block(text@.take(i + 1));
                let last1 = rb0.last().update(rb0.last().len() - 1, rb0.last().last().push(c));
                assert(rb1 =~= rb0.update(rb0.len() - 1, last1));
                assert(text@.subrange(start as int, i + 1) =~= text@.subrange(
                    start as int,
                    i as int,
                ).push(c));
            }
        }
        i = i + 1;
    }
    let ghost rows0 = rows@;
    let ghost cur0 = cur@;
    let piece = text.substring_char(start, n);
    let cell = trim_str(piece);
    cur.push(cell);
    rows.push(cur);
    proof {
        assert(text@.take(n as int) =~= text@);
        let rb = raw_block(text@);
        let pb = parsed_block(text@);
        assert forall|r: int| 0 <= r < rows@.len() implies #[trigger] rows@[r]@.len() == pb[r].len()
            && forall|k: int| 0 <= k < pb[r].len() ==> #[trigger] rows@[r]@[k]@ == pb[r][k] by {
            assert forall|k: int| 0 <= k < pb[r].len() implies #[trigger] rows@[r]@[k]@
                == pb[r][k] by {
                assert(pb[r][k] == trimmed(rb[r][k]));
                if r < rows0.len() {
                    assert(rows@[r] == rows0[r]);
                    assert(rows0[r]@.len() == rb[r].len());
                    assert(rows0[r]@[k]@ == trimmed(rb[r][k]));
                } else {
                    assert(rb[r] == rb.last());
                    if k < cur0.len() {
                        assert(rows@[r]@[k] == cur0[k]);
                        assert(cur0[k]@ == trimmed(rb.last()[k]));
                    } else {
                        assert(rb.last()[k] == rb.last().last());
                    }
                }
            }
        }
    }
    rows
}

proof fn lemma_split_concat(a: Seq<char>, b: Seq<char>, sep: char)
    ensures
        split_on(a + seq![sep] + b, sep) == split_on(a, sep) + split_on(b, sep),
    decreases b.len(),
{
    if b.len() == 0 {
        assert(a + seq![sep] + b =~= a.push(sep));
        lemma_split_push(a, sep, sep);
        reveal_with_fuel(split_on, 1);
        assert(split_on(b, sep) =~= seq![Seq::<char>::empty()]);
    } else {
        let b0 = b.drop_last();
        let c = b.last();
        lemma_split_concat(a, b0, sep);
        assert(a + seq![sep] + b =~= (a + seq![sep] + b0).push(c));
        assert(b =~= b0.push(c));
        lemma_split_push(a + seq![sep] + b0, c, sep);
        lemma_split_push(b0, c, sep);
        lemma_split_nonempty(b0, sep);
        lemma_split_nonempty(a, sep);
        let l = split_on(a, sep);
        let r = split_on(b0, sep);
        if c == sep {
            assert((l + r).push(Seq::<char>::empty()) =~= l + r.push(Seq::<char>::empty()));
        } else {
            assert((l + r).update((l + r).len() - 1, (l + r).last().push(c)) =~= l + r.update(
                r.len() - 1,
                r.last().push(c),
            ));
        }
    }
}

proof fn lemma_split_no_sep(s: Seq<char>, sep: char)
    requires
        !s.contains(sep),
    ensures
        split_on(s, sep) == seq![s],
    decreases s.len(),
{
    if s.len() == 0 {
        assert(s =~= Seq::<char>::empty());
        assert(split_on(s, sep) =~= seq![s]);
    } else {
        let s0 = s.drop_last();
        assert(!s0.contains(sep)) by {
            if s0.contains(sep) {
                let k = choose|k: int| 0 <= k < s0.len() && s0[k] == sep;
                assert(s[k] == sep);
            }
        }
        lemma_split_no_sep(s0, sep);
        assert(s.last() != sep) by {
            assert(s[s.len() - 1] == s.last());
        }
        assert(s0.push(s.last()) =~= s);
    }
}

proof fn lemma_join_split(pieces: Seq<Seq<char>>, sep: char)
    requires
        pieces.len() >= 1,
        forall|k: int| 0 <= k < pieces.len() ==> !(#[trigger] pieces[k]).contains(sep),
    ensures
        split_on(join_with(pieces, sep), sep) == pieces,
    decreases pieces.len(),
{
    if pieces.len() == 1 {
        lemma_split_no_sep(pieces[0], sep);
        assert(seq![pieces[0]] =~= pieces);
    } else {
        let front = pieces.drop_last();
        lemma_join_split(front, sep);
        lemma_split_no_sep(pieces.last(), sep);
        lemma_split_concat(join_with(front, sep), pieces.last(), sep);
        assert(front + seq![pieces.last()] =~= pieces);
    }
}

proof fn lemma_join_free_of(pieces: Seq<Seq<char>>, sep: char, x: char)
    requires
        x != sep,
        forall|k: int| 0 <= k < pieces.len() ==> !(#[trigger] pieces[k]).contains(x),
    ensures
        !join_with(pieces, sep).contains(x),
    decreases pieces.len(),
{
    if pieces.len() > 1 {
        let front = pieces.drop_last();
        lemma_join_free_of(front, sep, x);
        let j = join_with(pieces, sep);
        let j0 = join_with(front, sep);
        if j.contains(x) {
            let k = choose|k: int| 0 <= k < j.len() && j[k] == x;
            if k < j0.len() {
                assert(j0[k] == x);
            } else if k == j0.len() {
                assert(j[k] == sep);
            } else {
                assert(pieces.last()[k - j0.len() - 1] == x);
                assert(pieces[pieces.len() - 1] == pieces.last());
            }
        }
    }
}

/// A cell that survives the clipboard text format: it holds no tab and no newline.
pub open spec fn is_plain_cell(c: Seq<char>) -> bool {
    !c.contains('\t') && !c.contains('\n')
}

/// Copying a block to text and parsing that text back gives the same block, each
/// cell trimmed, provided no cell holds a tab or a newline and no row is empty.
pub proof fn lemma_copy_paste_round_trip(block: Seq<Seq<Seq<char>>>)
    requires
        block.len() >= 1,
        forall|r: int| 0 <= r < block.len() ==> (#[trigger] block[r]).len() >= 1,
        forall|r: int, c: int|
            0 <= r < block.len() && 0 <= c < block[r].len() ==> is_plain_cell(
                #[trigger] block[r][c],
            ),
    ensures
        parsed_block(block_text(block)) == block.map_values(
            |row: Seq<Seq<char>>| row.map_values(|c: Seq<char>| trimmed(c)),
        ),
{
    let lines = block.map_values(|row: Seq<Seq<char>>| join_with(row, '\t'));
    assert forall|k: int| 0 <= k < lines.len() implies !(#[trigger] lines[k]).contains('\n') by {
        assert forall|c: int| 0 <= c < block[k].len() implies !(
        #[trigger] block[k][c]).contains('\n') by {
            assert(is_plain_cell(block[k][c]));
        }
        lemma_join_free_of(block[k], '\t', '\n');
    }
    lemma_join_split(lines, '\n');
    assert forall|k: int| 0 <= k < block.len() implies split_on(
        #[trigger] lines[k],
        '\t',
    ) == block[k] by {
        assert forall|c: int| 0 <= c < block[k].len() implies !(
        #[trigger] block[k][c]).contains('\t') by {
            assert(is_plain_cell(block[k][c]));
        }
        lemma_join_split(block[k], '\t');
    }
    assert(raw_block(block_text(block)) =~= block);
}

} // verus!
