//! Which lines of a root configuration are `Match` blocks.

use vstd::prelude::*;

use crate::config::match_laws::law_key_and_value;
use crate::config::root_config::{block_of, blocks_from, ends_block, is_directive, until_end};
use crate::layout::{MANAGED_BLOCK_END, MANAGED_BLOCK_START, MANAGED_INCLUDE_LINE};
use crate::text::{concat, is_ws, key_value, lower, trim};
use crate::text_laws::law_trimmed_text_stays;

verus! {

/// The line is a directive of that name: the first word is the name, whatever its case, and a value
/// stands behind it.
pub open spec fn is_line_of(line: Seq<char>, name: Seq<char>) -> bool {
    key_value(trim(line)) is Some && lower((key_value(trim(line))->0).0) == lower(name)
}

/// The line is the one that names the managed entries.
pub open spec fn is_include_line(line: Seq<char>) -> bool {
    lower(trim(line)) == lower(MANAGED_INCLUDE_LINE@)
}

/// The line belongs to whatever it stands in: it starts no section and marks nothing.
pub open spec fn is_inner_line(line: Seq<char>) -> bool {
    &&& trim(line) != MANAGED_BLOCK_START@
    &&& !is_include_line(line)
    &&& !is_line_of(line, "Host"@)
    &&& !is_line_of(line, "Match"@)
}

pub open spec fn are_inner_lines(ls: Seq<Seq<char>>) -> bool {
    forall|i: int| 0 <= i < ls.len() ==> is_inner_line(#[trigger] ls[i])
}

/// A block ends where a section starts or the managed entries stand.
pub proof fn law_block_ends_at_a_section(line: Seq<char>)
    ensures
        ends_block(line) <==> !is_inner_line(line),
{
}

/// A word and a value make a directive, whatever the case of the word.
pub proof fn law_directive_is_word_and_value(word: Seq<char>, value: Seq<char>, name: Seq<char>)
    requires
        word.len() > 0,
        forall|i: int| 0 <= i < word.len() ==> !is_ws(#[trigger] word[i]),
        value.len() > 0,
        !is_ws(value[0]),
        !is_ws(value.last()),
    ensures
        is_directive(word + " "@ + value, name) <==> lower(word) == lower(name),
        is_line_of(word + " "@ + value, name) <==> lower(word) == lower(name),
{
    let s = word + " "@ + value;
    law_key_and_value(word, value);
    assert(s[0] == word[0]);
    assert(s.last() == value.last());
    law_trimmed_text_stays(s);
}

proof fn lemma_inner_lines_are_passed(
    inner: Seq<Seq<char>>,
    rest: Seq<Seq<char>>,
    n: int,
    anchor: bool,
)
    requires
        are_inner_lines(inner) || forall|i: int|
            0 <= i < inner.len() ==> is_plain_line(#[trigger] inner[i]),
    ensures
        blocks_from(inner + rest, n, false, anchor) == blocks_from(
            rest,
            n + inner.len(),
            false,
            anchor,
        ),
    decreases inner.len(),
{
    if inner.len() == 0 {
        assert(inner + rest =~= rest);
    } else {
        let all = inner + rest;
        let later = inner.skip(1);
        assert(all[0] == inner[0]);
        assert(all.skip(1) =~= later + rest);
        assert(is_inner_line(inner[0]) || is_plain_line(inner[0]));
        if are_inner_lines(inner) {
            assert forall|i: int| 0 <= i < later.len() implies is_inner_line(#[trigger] later[i]) by {
                assert(later[i] == inner[i + 1]);
            }
        } else {
            assert forall|i: int| 0 <= i < later.len() implies is_plain_line(#[trigger] later[i]) by {
                assert(later[i] == inner[i + 1]);
            }
        }
        lemma_inner_lines_are_passed(later, rest, n + 1, anchor);
    }
}

/// The line starts no `Match` block and marks nothing.
pub open spec fn is_plain_line(line: Seq<char>) -> bool {
    &&& trim(line) != MANAGED_BLOCK_START@
    &&& !is_include_line(line)
    &&& !is_line_of(line, "Match"@)
}

proof fn lemma_until_end(inner: Seq<Seq<char>>, rest: Seq<Seq<char>>)
    requires
        are_inner_lines(inner),
        rest.len() > 0 ==> !is_inner_line(rest[0]),
    ensures
        until_end(inner + rest) == inner.len(),
    decreases inner.len(),
{
    let all = inner + rest;
    if inner.len() == 0 {
        assert(all =~= rest);
    } else {
        assert(all[0] == inner[0]);
        assert(is_inner_line(inner[0]));
        assert(all.skip(1) =~= inner.skip(1) + rest);
        assert forall|i: int| 0 <= i < inner.skip(1).len() implies is_inner_line(
            #[trigger] inner.skip(1)[i],
        ) by {
            assert(is_inner_line(inner[i + 1]));
        }
        lemma_until_end(inner.skip(1), rest);
    }
}

/// Lines outside of `Match` blocks give no block; a line that starts one gives the block of this
/// line and of all behind it up to the next section, with their numbers; and what follows is read
/// on as before.
pub proof fn law_match_block_is_found(
    plain: Seq<Seq<char>>,
    header: Seq<char>,
    inner: Seq<Seq<char>>,
    rest: Seq<Seq<char>>,
    n: int,
    anchor: bool,
)
    requires
        forall|i: int| 0 <= i < plain.len() ==> is_plain_line(#[trigger] plain[i]),
        is_line_of(header, "Match"@),
        trim(header) != MANAGED_BLOCK_START@,
        !is_include_line(header),
        are_inner_lines(inner),
        rest.len() > 0 ==> !is_inner_line(rest[0]),
    ensures
        ({
            let block = seq![header] + inner;
            let first = n + plain.len() + 1;
            let found = blocks_from(plain + block + rest, n, false, anchor);
            let b = found[0];
            &&& found == seq![b] + blocks_from(
                rest,
                n + plain.len() + block.len(),
                false,
                anchor,
            )
            &&& b == block_of(block, first, !anchor)
            &&& b.raw == concat(block)
            &&& b.start_line == first
            &&& b.end_line == first + inner.len()
            &&& b.before_anchor == !anchor
        }),
{
    let block = seq![header] + inner;
    let m = n + plain.len();
    lemma_inner_lines_are_passed(plain, block + rest, n, anchor);
    assert(plain + block + rest =~= plain + (block + rest));
    let ls = block + rest;
    assert(ls[0] == header);
    assert(ls.skip(1) =~= inner + rest);
    lemma_until_end(inner, rest);
    let k = 1 + inner.len() as int;
    assert(ls.take(k) =~= block);
    assert(ls.skip(k) =~= rest);
    let b = block_of(block, m + 1, !anchor);
    let found = blocks_from(ls, m, false, anchor);
    assert(found == seq![b] + blocks_from(rest, m + k, false, anchor));
    assert(found[0] == b);
}

/// Behind the line that names the managed entries all blocks stand behind them.
pub proof fn law_blocks_behind_the_include_line(
    plain: Seq<Seq<char>>,
    line: Seq<char>,
    rest: Seq<Seq<char>>,
    n: int,
    anchor: bool,
)
    requires
        forall|i: int| 0 <= i < plain.len() ==> is_plain_line(#[trigger] plain[i]),
        is_include_line(line),
        trim(line) != MANAGED_BLOCK_START@,
    ensures
        blocks_from(plain + seq![line] + rest, n, false, anchor) == blocks_from(
            rest,
            n + plain.len() + 1,
            false,
            true,
        ),
{
    let ls = seq![line] + rest;
    lemma_inner_lines_are_passed(plain, ls, n, anchor);
    assert(plain + seq![line] + rest =~= plain + ls);
    assert(ls[0] == line);
    assert(ls.skip(1) =~= rest);
}

proof fn lemma_managed_block(
    inner: Seq<Seq<char>>,
    end: Seq<char>,
    rest: Seq<Seq<char>>,
    n: int,
    anchor: bool,
)
    requires
        forall|i: int| 0 <= i < inner.len() ==> trim(#[trigger] inner[i]) != MANAGED_BLOCK_END@,
        trim(end) == MANAGED_BLOCK_END@,
    ensures
        blocks_from(inner + seq![end] + rest, n, true, anchor) == blocks_from(
            rest,
            n + inner.len() + 1,
            false,
            true,
        ),
    decreases inner.len(),
{
    let all = inner + seq![end] + rest;
    if inner.len() == 0 {
        assert(all[0] == end);
        assert(all.skip(1) =~= rest);
    } else {
        assert(all[0] == inner[0]);
        assert(trim(inner[0]) != MANAGED_BLOCK_END@);
        assert(all.skip(1) =~= inner.skip(1) + seq![end] + rest);
        assert forall|i: int| 0 <= i < inner.skip(1).len() implies trim(
            #[trigger] inner.skip(1)[i],
        ) != MANAGED_BLOCK_END@ by {
            assert(trim(inner[i + 1]) != MANAGED_BLOCK_END@);
        }
        lemma_managed_block(inner.skip(1), end, rest, n + 1, anchor);
    }
}

/// What stands between the marks of the managed block gives no block, whatever it is, and behind
/// them all blocks stand behind the managed entries.
pub proof fn law_blocks_behind_the_managed_block(
    plain: Seq<Seq<char>>,
    start: Seq<char>,
    inner: Seq<Seq<char>>,
    end: Seq<char>,
    rest: Seq<Seq<char>>,
    n: int,
    anchor: bool,
)
    requires
        forall|i: int| 0 <= i < plain.len() ==> is_plain_line(#[trigger] plain[i]),
        trim(start) == MANAGED_BLOCK_START@,
        forall|i: int| 0 <= i < inner.len() ==> trim(#[trigger] inner[i]) != MANAGED_BLOCK_END@,
        trim(end) == MANAGED_BLOCK_END@,
    ensures
        blocks_from(plain + seq![start] + inner + seq![end] + rest, n, false, anchor)
            == blocks_from(rest, n + plain.len() + inner.len() + 2, false, true),
{
    let ls = seq![start] + inner + seq![end] + rest;
    lemma_inner_lines_are_passed(plain, ls, n, anchor);
    assert(plain + seq![start] + inner + seq![end] + rest =~= plain + ls);
    assert(ls[0] == start);
    assert(ls.skip(1) =~= inner + seq![end] + rest);
    lemma_managed_block(inner, end, rest, n + plain.len() + 1, anchor);
}

} // verus!
