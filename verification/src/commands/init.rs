//! Tying the managed entries to the root configuration, and moving its `Host` blocks there.

#![verifier::loop_isolation(false)]

use vstd::prelude::*;

use crate::config::parser::{is_comment, line_is_comment, parsed};
use crate::config::root_config::{is_directive, line_ends_block, line_is_directive, until_end};
use crate::config::state::changed;
use crate::config::store::managed;
use crate::error::ConfigError;
use crate::layout::{
    MANAGED_BLOCK_END, MANAGED_BLOCK_START, MANAGED_INCLUDE_LINE, anchor_text, detect_newline,
    managed_block, newline_of,
};
use crate::strings::{chars_of, equal_ignoring_case, is_blank, same, split_raw_lines, trimmed};
use crate::text::{blank, concat, opt, raw_lines, same_ignoring_case, strs, trim, views};

verus! {

broadcast use crate::text::group_text;

// ---------------------------------------------------------------------------
// The types
// ---------------------------------------------------------------------------

/// What setting up came to.
#[derive(Debug, PartialEq, Eq)]
pub struct InitReport {
    pub include_ready: bool,
    pub include_written: bool,
    pub include_already_present: bool,
    pub backup_path: Option<String>,
}

/// A `Host` block of the root configuration with the lines that it stands on.
#[derive(Debug, PartialEq, Eq)]
pub struct RootHostBlock {
    pub leading_trivia: String,
    pub raw: String,
    pub start_line: usize,
    pub end_line: usize,
}

/// What a [`RootHostBlock`] holds.
#[verifier::ext_equal]
pub struct HostBlockView {
    pub leading_trivia: Seq<char>,
    pub raw: Seq<char>,
    pub start_line: int,
    pub end_line: int,
}

impl View for RootHostBlock {
    type V = HostBlockView;

    open spec fn view(&self) -> HostBlockView {
        HostBlockView {
            leading_trivia: self.leading_trivia@,
            raw: self.raw@,
            start_line: self.start_line as int,
            end_line: self.end_line as int,
        }
    }
}

/// A stretch of the root configuration.
#[derive(Debug, PartialEq, Eq)]
pub enum RootSegment {
    Preserved(String),
    Anchor(String),
    HostBlock(RootHostBlock),
}

/// What a [`RootSegment`] holds.
pub enum SegmentView {
    Preserved(Seq<char>),
    Anchor(Seq<char>),
    HostBlock(HostBlockView),
}

impl View for RootSegment {
    type V = SegmentView;

    open spec fn view(&self) -> SegmentView {
        match self {
            RootSegment::Preserved(s) => SegmentView::Preserved(s@),
            RootSegment::Anchor(s) => SegmentView::Anchor(s@),
            RootSegment::HostBlock(b) => SegmentView::HostBlock(b@),
        }
    }
}

/// The root configuration in stretches.
#[derive(Debug, PartialEq, Eq)]
pub struct ParsedRootConfig {
    pub segments: Vec<RootSegment>,
    pub anchor_index: Option<usize>,
    pub anchor_count: usize,
}

/// What a [`ParsedRootConfig`] holds.
#[verifier::ext_equal]
pub struct ParsedView {
    pub segments: Seq<SegmentView>,
    pub anchor_index: Option<int>,
    pub anchor_count: int,
}

pub open spec fn opt_int(o: Option<usize>) -> Option<int> {
    match o {
        Some(n) => Some(n as int),
        None => None,
    }
}

impl View for ParsedRootConfig {
    type V = ParsedView;

    open spec fn view(&self) -> ParsedView {
        ParsedView {
            segments: views(self.segments@),
            anchor_index: opt_int(self.anchor_index),
            anchor_count: self.anchor_count as int,
        }
    }
}

// ---------------------------------------------------------------------------
// Taking the root configuration apart
// ---------------------------------------------------------------------------

/// A blank line or a comment.
pub open spec fn is_trivia(line: Seq<char>) -> bool {
    blank(line) || is_comment(trim(line))
}

fn is_trivia_line(line: &str) -> (r: bool)
    ensures
        r == is_trivia(line@),
{
    let t: String = trimmed(line);
    t.as_str().is_empty() || line_is_comment(&t)
}

/// How many lines at the end are trivia.
pub open spec fn trivia_run(ls: Seq<Seq<char>>) -> nat
    decreases ls.len(),
{
    if ls.len() > 0 && is_trivia(ls.last()) {
        1 + trivia_run(ls.drop_last())
    } else {
        0
    }
}

/// How many of the lines from `from` up to `to` are trivia at the end.
fn count_trivia(all: &Vec<String>, from: usize, to: usize) -> (r: usize)
    requires
        from <= to <= all@.len(),
    ensures
        r == trivia_run(strs(all@).subrange(from as int, to as int)),
        r <= to - from,
{
    let ghost ls = strs(all@);
    let mut n: usize = 0;
    while n < to - from && is_trivia_line(&all[to - n - 1])
        invariant
            n <= to - from,
            to <= all@.len(),
            ls == strs(all@),
            trivia_run(ls.subrange(from as int, to as int)) == n + trivia_run(
                ls.subrange(from as int, to - n),
            ),
        decreases to - from - n,
    {
        let ghost s = ls.subrange(from as int, to - n);
        assert(s.last() == all@[to - n - 1]@);
        assert(s.drop_last() =~= ls.subrange(from as int, to - n - 1));
        n += 1;
    }
    assert(n < to - from ==> ls.subrange(from as int, to - n).last() == all@[to - n - 1]@);
    n
}

/// The lines from `from` up to `to` as one text.
fn join_lines(all: &Vec<String>, from: usize, to: usize) -> (r: String)
    requires
        from <= to <= all@.len(),
    ensures
        r@ == concat(strs(all@).subrange(from as int, to as int)),
{
    let ghost ls = strs(all@);
    let mut r: String = String::new();
    let mut i: usize = from;
    assert(ls.subrange(from as int, from as int) =~= Seq::<Seq<char>>::empty());
    while i < to
        invariant
            from <= i <= to <= all@.len(),
            ls == strs(all@),
            r@ == concat(ls.subrange(from as int, i as int)),
        decreases to - i,
    {
        r.push_str(&all[i]);
        i += 1;
        let ghost s = ls.subrange(from as int, i as int);
        assert(s.drop_last() =~= ls.subrange(from as int, i - 1));
        assert(s.last() == all@[i - 1]@);
    }
    r
}

/// The trivia at the end of a text.
pub open spec fn trailing_trivia(content: Seq<char>) -> Seq<char> {
    let ls = raw_lines(content);
    concat(ls.subrange(ls.len() - trivia_run(ls), ls.len() as int))
}

fn leading_trivia_suffix(content: &str) -> (r: String)
    ensures
        r@ == trailing_trivia(content@),
{
    let all: Vec<String> = split_raw_lines(content);
    let n: usize = count_trivia(&all, 0, all.len());
    assert(strs(all@).subrange(0, all@.len() as int) =~= strs(all@));
    join_lines(&all, all.len() - n, all.len())
}

/// How far the root configuration has been taken apart.
#[verifier::ext_equal]
pub struct SplitView {
    pub segments: Seq<SegmentView>,
    pub preserved: Seq<char>,
    pub anchor_index: Option<int>,
    pub anchor_count: int,
}

impl SplitView {
    /// The text that was only collected becomes a stretch of its own.
    pub open spec fn flushed(self) -> SplitView {
        if self.preserved.len() == 0 {
            self
        } else {
            SplitView {
                segments: self.segments.push(SegmentView::Preserved(self.preserved)),
                preserved: Seq::empty(),
                ..self
            }
        }
    }

    pub open spec fn with_anchor(self, raw: Seq<char>) -> SplitView {
        let f = self.flushed();
        SplitView {
            segments: f.segments.push(SegmentView::Anchor(raw)),
            anchor_index: match f.anchor_index {
                Some(i) => Some(i),
                None => Some(f.segments.len() as int),
            },
            anchor_count: f.anchor_count + 1,
            ..f
        }
    }

    pub open spec fn with_block(self, b: HostBlockView, preserved: Seq<char>) -> SplitView {
        let f = self.flushed();
        SplitView {
            segments: f.segments.push(SegmentView::HostBlock(b)),
            preserved,
            ..f
        }
    }
}

/// How many lines stand before the first that ends the managed block.
pub open spec fn until_close(ls: Seq<Seq<char>>) -> nat
    decreases ls.len(),
{
    if ls.len() == 0 || trim(ls[0]) == MANAGED_BLOCK_END@ {
        0
    } else {
        1 + until_close(ls.skip(1))
    }
}

/// What taking apart the lines `ls`, of which `n` stand before the first, makes of `st`; or why
/// that cannot be done. A `Host` block reaches up to the next line that ends a block. Trivia
/// behind it goes with what follows, and stays with it at the end of the file.
pub open spec fn split_lines_from(ls: Seq<Seq<char>>, n: int, st: SplitView) -> Result<
    SplitView,
    Seq<char>,
>
    decreases ls.len(),
{
    if ls.len() == 0 {
        Ok(st.flushed())
    } else {
        let line = trim(ls[0]);
        if line == MANAGED_BLOCK_START@ {
            let k = until_close(ls);
            if k >= ls.len() {
                Err("managed include block is not closed"@)
            } else {
                split_lines_from(
                    ls.skip(k as int + 1),
                    n + k + 1,
                    st.with_anchor(concat(ls.take(k as int + 1))),
                )
            }
        } else if same_ignoring_case(line, MANAGED_INCLUDE_LINE@) {
            split_lines_from(ls.skip(1), n + 1, st.with_anchor(ls[0]))
        } else if is_directive(line, "Host"@) {
            let k = 1 + until_end(ls.skip(1));
            let j = trivia_run(ls.subrange(1, k as int));
            let at_end = k >= ls.len();
            let body = if at_end {
                k as int
            } else {
                k - j
            };
            let block = HostBlockView {
                leading_trivia: trailing_trivia(st.preserved),
                raw: concat(ls.take(body)),
                start_line: n + 1,
                end_line: n + k - j,
            };
            let after = if at_end {
                Seq::empty()
            } else {
                ls.skip(k as int)
            };
            split_lines_from(
                after,
                n + k,
                st.with_block(block, concat(ls.subrange(body, k as int))),
            )
        } else {
            split_lines_from(
                ls.skip(1),
                n + 1,
                SplitView { preserved: st.preserved + ls[0], ..st },
            )
        }
    }
}

/// The stretches of a root configuration, or why it cannot be taken apart.
pub open spec fn root_parts(content: Seq<char>) -> Result<ParsedView, Seq<char>> {
    match split_lines_from(
        raw_lines(content),
        0,
        SplitView {
            segments: Seq::empty(),
            preserved: Seq::empty(),
            anchor_index: None,
            anchor_count: 0,
        },
    ) {
        Err(e) => Err(e),
        Ok(st) => Ok(
            ParsedView {
                segments: st.segments,
                anchor_index: st.anchor_index,
                anchor_count: st.anchor_count,
            },
        ),
    }
}

pub open spec fn parts_result(r: Result<ParsedRootConfig, ConfigError>) -> Result<
    ParsedView,
    Seq<char>,
> {
    match r {
        Ok(p) => Ok(p@),
        Err(e) => Err(e@),
    }
}

/// How far the root configuration has been taken apart.
struct RootSplit {
    segments: Vec<RootSegment>,
    preserved: String,
    anchor_index: Option<usize>,
    anchor_count: usize,
}

impl View for RootSplit {
    type V = SplitView;

    closed spec fn view(&self) -> SplitView {
        SplitView {
            segments: views(self.segments@),
            preserved: self.preserved@,
            anchor_index: opt_int(self.anchor_index),
            anchor_count: self.anchor_count as int,
        }
    }
}

impl RootSplit {
    fn flush_preserved(&mut self)
        ensures
            final(self)@ == old(self)@.flushed(),
    {
        let ghost was = self@;
        if !self.preserved.as_str().is_empty() {
            self.segments.push(RootSegment::Preserved(self.preserved.clone()));
            self.preserved = String::new();
            assert(self@ == was.flushed());
        }
    }

    fn add_anchor(&mut self, raw: String)
        requires
            old(self)@.anchor_count < usize::MAX,
        ensures
            final(self)@ == old(self)@.with_anchor(raw@),
    {
        let ghost was = self@;
        self.flush_preserved();
        if self.anchor_index.is_none() {
            self.anchor_index = Some(self.segments.len());
        }
        self.anchor_count = self.anchor_count + 1;
        self.segments.push(RootSegment::Anchor(raw));
        assert(self@ == was.with_anchor(raw@));
    }

    fn add_block(&mut self, block: RootHostBlock, preserved: String)
        ensures
            final(self)@ == old(self)@.with_block(block@, preserved@),
    {
        let ghost was = self@;
        self.flush_preserved();
        self.segments.push(RootSegment::HostBlock(block));
        self.preserved = preserved;
        assert(self@ == was.with_block(block@, preserved@));
    }
}

/// Where the managed block that starts at `at` ends, if it does.
fn find_close(all: &Vec<String>, at: usize) -> (r: Option<usize>)
    requires
        at < all.len(),
    ensures
        match r {
            Some(i) => at <= i < all@.len() && i - at == until_close(strs(all@).skip(at as int)),
            None => until_close(strs(all@).skip(at as int)) >= all@.len() - at,
        },
{
    let ghost ls = strs(all@);
    let mut i: usize = at;
    while i < all.len()
        invariant
            at <= i <= all@.len(),
            ls == strs(all@),
            until_close(ls.skip(at as int)) == i - at + until_close(ls.skip(i as int)),
        decreases all@.len() - i,
    {
        assert(ls.skip(i as int)[0] == all@[i as int]@);
        if same(&trimmed(&all[i]), MANAGED_BLOCK_END) {
            return Some(i);
        }
        i += 1;
    }
    None
}

/// Where the block that starts at `at` ends.
fn find_end(all: &Vec<String>, at: usize) -> (r: usize)
    requires
        at < all.len(),
    ensures
        r == at + 1 + until_end(strs(all@).skip(at as int).skip(1)),
        at < r <= all@.len(),
{
    let ghost ls = strs(all@);
    let mut i: usize = at + 1;
    assert(ls.skip(at as int).skip(1) == ls.skip(at + 1));
    while i < all.len() && !line_ends_block(&all[i])
        invariant
            at < i <= all@.len(),
            ls == strs(all@),
            until_end(ls.skip(at + 1)) == i - at - 1 + until_end(ls.skip(i as int)),
        decreases all@.len() - i,
    {
        assert(ls.skip(i as int)[0] == all@[i as int]@);
        i += 1;
    }
    assert(i < all@.len() ==> ls.skip(i as int)[0] == all@[i as int]@);
    i
}

/// Reads the `Host` block that starts at the line of index `i`, and gives back where it ends.
#[verifier::spinoff_prover]
#[verifier::rlimit(30)]
fn read_host_block(all: &Vec<String>, i: usize, st: &mut RootSplit) -> (end: usize)
    requires
        i < all.len(),
        trim(strs(all@)[i as int]) != MANAGED_BLOCK_START@,
        !same_ignoring_case(trim(strs(all@)[i as int]), MANAGED_INCLUDE_LINE@),
        is_directive(trim(strs(all@)[i as int]), "Host"@),
    ensures
        i < end <= all@.len(),
        split_lines_from(strs(all@).skip(i as int), i as int, old(st)@) == split_lines_from(
            strs(all@).skip(end as int),
            end as int,
            final(st)@,
        ),
        final(st)@.anchor_count == old(st)@.anchor_count,
{
    let ghost ls = strs(all@);
    let ghost left = ls.skip(i as int);
    assert(left[0] == all@[i as int]@);
    assert(left.len() == all@.len() - i);
    let leading_trivia: String = leading_trivia_suffix(&st.preserved);
    let end: usize = find_end(all, i);
    let trivia: usize = count_trivia(all, i + 1, end);
    let body: usize = if end == all.len() {
        end
    } else {
        end - trivia
    };
    let block = RootHostBlock {
        leading_trivia,
        raw: join_lines(all, i, body),
        start_line: i + 1,
        end_line: end - trivia,
    };
    proof {
        let k = end - i;
        assert(left.subrange(1, k) =~= ls.subrange(i + 1, end as int));
        assert(left.take(body - i) =~= ls.subrange(i as int, body as int));
        assert(left.subrange(body - i, k) =~= ls.subrange(body as int, end as int));
        assert(left.skip(k) =~= ls.skip(end as int));
        assert(end == all@.len() ==> ls.skip(end as int) =~= Seq::<Seq<char>>::empty());
    }
    st.add_block(block, join_lines(all, body, end));
    end
}

/// Reads the managed block that starts at the line of index `i`, and gives back where it ends.
#[verifier::spinoff_prover]
#[verifier::rlimit(30)]
fn read_managed_block(all: &Vec<String>, i: usize, st: &mut RootSplit) -> (r: Result<
    usize,
    ConfigError,
>)
    requires
        i < all.len(),
        old(st)@.anchor_count <= i,
        trim(strs(all@)[i as int]) == MANAGED_BLOCK_START@,
    ensures
        match r {
            Ok(next) => i < next <= all@.len() && split_lines_from(
                strs(all@).skip(i as int),
                i as int,
                old(st)@,
            ) == split_lines_from(strs(all@).skip(next as int), next as int, final(st)@)
                && final(st)@.anchor_count <= next,
            Err(e) => split_lines_from(strs(all@).skip(i as int), i as int, old(st)@) == Err::<
                SplitView,
                Seq<char>,
            >(e@),
        },
{
    let ghost ls = strs(all@);
    let ghost left = ls.skip(i as int);
    assert(left[0] == all@[i as int]@);
    assert(left.len() == all@.len() - i);
    match find_close(all, i) {
        None => Err(ConfigError::of("managed include block is not closed")),
        Some(close) => {
            proof {
                let k = close - i;
                assert(left.take(k + 1) =~= ls.subrange(i as int, close + 1));
                assert(left.skip(k + 1) =~= ls.skip(close + 1));
            }
            st.add_anchor(join_lines(all, i, close + 1));
            Ok(close + 1)
        },
    }
}

/// Takes the stretch that starts at the line of index `i`, and gives back where the next starts.
#[verifier::spinoff_prover]
#[verifier::rlimit(30)]
fn read_stretch(all: &Vec<String>, i: usize, st: &mut RootSplit) -> (r: Result<usize, ConfigError>)
    requires
        i < all.len(),
        old(st)@.anchor_count <= i,
    ensures
        match r {
            Ok(next) => i < next <= all@.len() && split_lines_from(
                strs(all@).skip(i as int),
                i as int,
                old(st)@,
            ) == split_lines_from(strs(all@).skip(next as int), next as int, final(st)@)
                && final(st)@.anchor_count <= next,
            Err(e) => split_lines_from(strs(all@).skip(i as int), i as int, old(st)@) == Err::<
                SplitView,
                Seq<char>,
            >(e@),
        },
{
    let ghost ls = strs(all@);
    let ghost left = ls.skip(i as int);
    assert(left[0] == all@[i as int]@);
    assert(left.len() == all@.len() - i);
    let line: String = trimmed(&all[i]);
    if same(&line, MANAGED_BLOCK_START) {
        read_managed_block(all, i, st)
    } else if equal_ignoring_case(&line, MANAGED_INCLUDE_LINE) {
        st.add_anchor(all[i].clone());
        Ok(i + 1)
    } else if line_is_directive(&line, "Host") {
        Ok(read_host_block(all, i, st))
    } else {
        st.preserved.push_str(&all[i]);
        Ok(i + 1)
    }
}

pub fn parse_root_config(content: &str) -> (r: Result<ParsedRootConfig, ConfigError>)
    ensures
        parts_result(r) == root_parts(content@),
{
    let all: Vec<String> = split_raw_lines(content);
    let ghost ls = strs(all@);
    let mut st = RootSplit {
        segments: Vec::new(),
        preserved: String::new(),
        anchor_index: None,
        anchor_count: 0,
    };
    let ghost whole = split_lines_from(ls, 0, st@);
    let mut i: usize = 0;
    while i < all.len()
        invariant
            i <= all@.len(),
            st@.anchor_count <= i,
            ls == strs(all@),
            whole == split_lines_from(ls.skip(i as int), i as int, st@),
        decreases all@.len() - i,
    {
        match read_stretch(&all, i, &mut st) {
            Ok(next) => {
                i = next;
            },
            Err(e) => {
                return Err(e);
            },
        }
    }
    st.flush_preserved();
    Ok(
        ParsedRootConfig {
            segments: st.segments,
            anchor_index: st.anchor_index,
            anchor_count: st.anchor_count,
        },
    )
}

// ---------------------------------------------------------------------------
// Putting the anchor in its place
// ---------------------------------------------------------------------------

/// A line that starts a `Host` or a `Match` block.
pub open spec fn is_conditional(raw: Seq<char>) -> bool {
    is_directive(trim(raw), "Host"@) || is_directive(trim(raw), "Match"@)
}

/// How many lines stand before the first that starts a block.
pub open spec fn until_conditional(ls: Seq<Seq<char>>) -> nat
    decreases ls.len(),
{
    if ls.len() == 0 || is_conditional(ls[0]) {
        0
    } else {
        1 + until_conditional(ls.skip(1))
    }
}

/// How many lines stand before the first block and the trivia before it: all of them where there
/// is no block.
pub open spec fn anchor_line(ls: Seq<Seq<char>>) -> int {
    let n = until_conditional(ls);
    if n >= ls.len() {
        ls.len() as int
    } else {
        n - trivia_run(ls.take(n as int))
    }
}

pub open spec fn ends_line(s: Seq<char>) -> bool {
    s.len() > 0 && (s.last() == '\r' || s.last() == '\n')
}

/// `existing` with the anchor before its first block and the trivia before that.
pub open spec fn with_anchor_placed(existing: Seq<char>, newline: Seq<char>) -> Seq<char> {
    if blank(existing) {
        anchor_text(newline)
    } else {
        let ls = raw_lines(existing);
        let k = anchor_line(ls);
        let prefix = concat(ls.take(k));
        let suffix = concat(ls.skip(k));
        let gap = if prefix.len() == 0 || ends_line(prefix) {
            Seq::<char>::empty()
        } else {
            newline
        };
        prefix + gap + anchor_text(newline) + suffix
    }
}

/// How many lines stand before the place of the anchor.
fn first_conditional_line(all: &Vec<String>) -> (r: usize)
    ensures
        r == anchor_line(strs(all@)),
        r <= all@.len(),
{
    let ghost ls = strs(all@);
    let mut i: usize = 0;
    while i < all.len()
        invariant
            i <= all@.len(),
            ls == strs(all@),
            until_conditional(ls) == i + until_conditional(ls.skip(i as int)),
        decreases all@.len() - i,
    {
        assert(ls.skip(i as int)[0] == all@[i as int]@);
        let line: String = trimmed(&all[i]);
        if line_is_directive(&line, "Host") || line_is_directive(&line, "Match") {
            let n: usize = count_trivia(all, 0, i);
            assert(ls.subrange(0, i as int) =~= ls.take(i as int));
            return i - n;
        }
        i += 1;
    }
    all.len()
}

pub fn insert_managed_block_before_first_conditional(existing: &str, newline: &str) -> (r: String)
    ensures
        r@ == with_anchor_placed(existing@, newline@),
{
    if is_blank(existing) {
        return managed_block(newline);
    }
    let all: Vec<String> = split_raw_lines(existing);
    let k: usize = first_conditional_line(&all);
    let prefix: String = join_lines(&all, 0, k);
    let suffix: String = join_lines(&all, k, all.len());
    assert(strs(all@).subrange(0, k as int) =~= strs(all@).take(k as int));
    assert(strs(all@).subrange(k as int, all@.len() as int) =~= strs(all@).skip(k as int));
    let chars: Vec<char> = chars_of(&prefix);
    let n: usize = chars.len();
    let whole: bool = n == 0 || chars[n - 1] == '\r' || chars[n - 1] == '\n';
    let mut out: String = prefix;
    let ghost p = out@;
    if !whole {
        out.push_str(newline);
    } else {
        assert(p + Seq::<char>::empty() =~= p);
    }
    out.push_str(&managed_block(newline));
    out.push_str(&suffix);
    out
}

/// The text of a stretch, except that of an anchor.
pub open spec fn kept_text(s: SegmentView) -> Seq<char> {
    match s {
        SegmentView::Preserved(raw) => raw,
        SegmentView::HostBlock(b) => b.raw,
        SegmentView::Anchor(_) => Seq::empty(),
    }
}

/// The text of all stretches but the anchors.
pub open spec fn text_without_anchors(ss: Seq<SegmentView>) -> Seq<char>
    decreases ss.len(),
{
    if ss.len() == 0 {
        Seq::empty()
    } else {
        text_without_anchors(ss.drop_last()) + kept_text(ss.last())
    }
}

/// The root configuration with the anchor in its place.
#[derive(Debug, PartialEq, Eq)]
pub struct ManagedAnchorPlan {
    pub rewritten_root: String,
    pub had_anchor: bool,
}

/// The root configuration with its one anchor in its place, and whether it had one; or why that
/// cannot be.
pub open spec fn anchored(content: Seq<char>, newline: Seq<char>) -> Result<
    (Seq<char>, bool),
    Seq<char>,
> {
    match root_parts(content) {
        Err(e) => Err(e),
        Ok(p) => if p.anchor_count > 1 {
            Err("root config contains multiple include anchors; initialization is not safe"@)
        } else {
            Ok(
                (
                    with_anchor_placed(text_without_anchors(p.segments), newline),
                    p.anchor_index is Some,
                ),
            )
        },
    }
}

fn join_without_anchors(segments: &Vec<RootSegment>) -> (r: String)
    ensures
        r@ == text_without_anchors(views(segments@)),
{
    let ghost ss = views(segments@);
    let mut out: String = String::new();
    let mut i: usize = 0;
    while i < segments.len()
        invariant
            i <= segments@.len(),
            ss == views(segments@),
            out@ == text_without_anchors(ss.take(i as int)),
        decreases segments@.len() - i,
    {
        assert(ss[i as int] == segments@[i as int]@);
        match &segments[i] {
            RootSegment::Preserved(raw) => {
                out.push_str(raw);
            },
            RootSegment::HostBlock(b) => {
                out.push_str(&b.raw);
            },
            RootSegment::Anchor(_) => {
                assert(out@ + Seq::<char>::empty() =~= out@);
            },
        }
        i += 1;
    }
    out
}

pub fn normalize_root_with_managed_anchor(content: &str, newline: &str) -> (r: Result<
    ManagedAnchorPlan,
    ConfigError,
>)
    ensures
        anchored(content@, newline@) == (match r {
            Ok(p) => Ok((p.rewritten_root@, p.had_anchor)),
            Err(e) => Err(e@),
        }),
{
    let parsed: ParsedRootConfig = match parse_root_config(content) {
        Ok(p) => p,
        Err(e) => {
            return Err(e);
        },
    };
    if parsed.anchor_count > 1 {
        return Err(
            ConfigError::of(
                "root config contains multiple include anchors; initialization is not safe",
            ),
        );
    }
    let rest: String = join_without_anchors(&parsed.segments);
    Ok(
        ManagedAnchorPlan {
            rewritten_root: insert_managed_block_before_first_conditional(&rest, newline),
            had_anchor: parsed.anchor_index.is_some(),
        },
    )
}

/// What setting up does to the root configuration: the text to be written, if it changes, and
/// the report, which holds no path of a snapshot yet.
pub fn ensure_initialized(existing: &str, windows: bool) -> (r: Result<
    (Option<String>, InitReport),
    ConfigError,
>)
    ensures
        match r {
            Ok((text, report)) => {
                &&& anchored(existing@, newline_of(existing@, windows)) matches Ok((root, had))
                &&& opt(text) == (if root == existing@ {
                    None
                } else {
                    Some(root)
                })
                &&& report.include_ready
                &&& report.include_written == (root != existing@)
                &&& report.include_already_present == had
                &&& report.backup_path is None
            },
            Err(e) => anchored(existing@, newline_of(existing@, windows)) == Err::<
                (Seq<char>, bool),
                Seq<char>,
            >(e@),
        },
{
    match normalize_root_with_managed_anchor(existing, detect_newline(existing, windows)) {
        Err(e) => Err(e),
        Ok(plan) => {
            let changed: bool = !same(&plan.rewritten_root, existing);
            let report = InitReport {
                include_ready: true,
                include_written: changed,
                include_already_present: plan.had_anchor,
                backup_path: None,
            };
            if changed {
                Ok((Some(plan.rewritten_root), report))
            } else {
                Ok((None, report))
            }
        },
    }
}

} // verus!
