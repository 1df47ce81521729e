//! What a written `Match` header means.

use vstd::prelude::*;

use crate::config::match_header::{
    BlockView, ContextView, CriterionView, HeaderView, MatchKeyword, all_patterns, cleaned,
    header_meaning, header_tokens, is_supported_keyword, keyword_of, missing_patterns, patterns_of,
    read_tokens, tokens_from, unquote, until_keyword,
};
use crate::config::pattern::{
    bare, decide, glob_may_say, is_negated, is_plain, lemma_decide_literals, list_may_say,
    outcomes_may_be,
};
use crate::config::root_config::{
    block_may_apply, block_of, body_of, criteria_may_say, criterion_may_say, subject, turned,
};
use crate::text::{
    concat, is_ws, join, key_value, lower, lower_char, piece, trim, trim_start, until_ws,
};
use crate::text_laws::{law_joined_parts_are_found, law_trimmed_text_stays};

verus! {

// ---------------------------------------------------------------------------
// Headers as they are written
// ---------------------------------------------------------------------------

/// A pattern and the quotation mark on both sides of it.
#[verifier::ext_equal]
pub struct WrittenPattern {
    pub value: Seq<char>,
    pub quote: Option<char>,
}

pub open spec fn is_quote(c: char) -> bool {
    c == '"' || c == '\''
}

impl WrittenPattern {
    /// The pattern can be written so: without commas, and without quotation marks and white space
    /// unless it stands between quotation marks.
    pub open spec fn wf(self) -> bool {
        &&& !self.value.contains(',')
        &&& match self.quote {
            Some(q) => is_quote(q) && !self.value.contains(q),
            None => forall|i: int|
                0 <= i < self.value.len() ==> !is_ws(#[trigger] self.value[i]) && !is_quote(
                    self.value[i],
                ),
        }
    }

    pub open spec fn text(self) -> Seq<char> {
        match self.quote {
            Some(q) => seq![q] + self.value + seq![q],
            None => self.value,
        }
    }
}

pub open spec fn texts(row: Seq<WrittenPattern>) -> Seq<Seq<char>> {
    row.map_values(|p: WrittenPattern| p.text())
}

pub open spec fn values(row: Seq<WrittenPattern>) -> Seq<Seq<char>> {
    row.map_values(|p: WrittenPattern| p.value)
}

/// Patterns with commas between them.
pub open spec fn row_text(row: Seq<WrittenPattern>) -> Seq<char> {
    join(texts(row), ","@)
}

/// The words that start a criterion.
pub open spec fn word_for(keyword: MatchKeyword) -> Seq<char> {
    match keyword {
        MatchKeyword::All => "all"@,
        MatchKeyword::Host => "host"@,
        MatchKeyword::OriginalHost => "originalhost"@,
        MatchKeyword::User => "user"@,
        MatchKeyword::LocalUser => "localuser"@,
        MatchKeyword::Tagged => "tagged"@,
        MatchKeyword::Version => "version"@,
        MatchKeyword::Command => "command"@,
        MatchKeyword::SessionType => "sessiontype"@,
        MatchKeyword::LocalNetwork => "localnetwork"@,
        MatchKeyword::Canonical => "canonical"@,
        MatchKeyword::Final => "final"@,
        MatchKeyword::Unsupported => "exec"@,
    }
}

/// The token is one of those words, whatever its case, with or without an exclamation mark.
pub open spec fn is_reserved(token: Seq<char>) -> bool {
    let w = lower(bare(token));
    ||| w == "address"@
    ||| exists|k: MatchKeyword| w == #[trigger] word_for(k)
}

/// A criterion as it is written: the word, which `name` may spell with capitals, and the rows of
/// patterns behind it.
#[verifier::ext_equal]
pub struct Clause {
    pub keyword: MatchKeyword,
    pub name: Seq<char>,
    pub negated: bool,
    pub rows: Seq<Seq<WrittenPattern>>,
}

pub open spec fn takes_no_patterns(k: MatchKeyword) -> bool {
    k == MatchKeyword::All || k == MatchKeyword::Canonical || k == MatchKeyword::Final
}

/// Any number of rows may stand behind it.
pub open spec fn takes_many_rows(k: MatchKeyword) -> bool {
    k == MatchKeyword::Host || k == MatchKeyword::OriginalHost || k == MatchKeyword::User || k
        == MatchKeyword::LocalUser
}

/// An empty pattern behind it means something.
pub open spec fn keeps_empty(k: MatchKeyword) -> bool {
    k == MatchKeyword::Tagged || k == MatchKeyword::Command
}

pub open spec fn not_empty() -> spec_fn(Seq<char>) -> bool {
    |s: Seq<char>| s.len() > 0
}

/// The patterns of a row that count.
pub open spec fn counting(row: Seq<WrittenPattern>, keep_empty: bool) -> Seq<Seq<char>> {
    if keep_empty {
        values(row)
    } else {
        values(row).filter(not_empty())
    }
}

pub open spec fn row_wf(row: Seq<WrittenPattern>) -> bool {
    &&& row.len() > 0
    &&& forall|i: int| 0 <= i < row.len() ==> (#[trigger] row[i]).wf()
    &&& row_text(row).len() > 0
    &&& !is_reserved(row_text(row))
}

impl Clause {
    /// The patterns of all rows.
    pub open spec fn patterns(self) -> Seq<Seq<char>> {
        self.rows.map_values(
            |row: Seq<WrittenPattern>| counting(row, keeps_empty(self.keyword)),
        ).flatten_alt()
    }

    pub open spec fn rows_wf(self) -> bool {
        forall|i: int| 0 <= i < self.rows.len() ==> row_wf(#[trigger] self.rows[i])
    }

    pub open spec fn wf(self) -> bool {
        &&& lower(self.name) == word_for(self.keyword)
        &&& self.rows_wf()
        &&& if takes_no_patterns(self.keyword) {
            self.rows.len() == 0
        } else if self.keyword == MatchKeyword::Unsupported {
            true
        } else {
            &&& self.patterns().len() > 0
            &&& !takes_many_rows(self.keyword) ==> self.rows.len() == 1
        }
    }

    pub open spec fn tokens(self) -> Seq<Seq<char>> {
        seq![
            if self.negated {
                seq!['!'] + self.name
            } else {
                self.name
            },
        ] + self.rows.map_values(|row: Seq<WrittenPattern>| row_text(row))
    }
}

/// The tokens of all clauses.
pub open spec fn tokens_of(cs: Seq<Clause>) -> Seq<Seq<char>> {
    cs.map_values(|c: Clause| c.tokens()).flatten()
}

pub open spec fn can_be_judged() -> spec_fn(Clause) -> bool {
    |c: Clause| c.keyword != MatchKeyword::Unsupported
}

pub open spec fn cannot_be_judged() -> spec_fn(Clause) -> bool {
    |c: Clause| c.keyword == MatchKeyword::Unsupported
}

/// The criteria that the clauses are.
pub open spec fn criteria_of(cs: Seq<Clause>) -> Seq<CriterionView> {
    cs.filter(can_be_judged()).map_values(
        |c: Clause|
            CriterionView { keyword: c.keyword, patterns: c.patterns(), negated: c.negated },
    )
}

/// The clauses that cannot be judged, as they are written.
pub open spec fn passed_over(cs: Seq<Clause>) -> Seq<Seq<char>> {
    cs.filter(cannot_be_judged()).map_values(|c: Clause| join(c.tokens(), " "@))
}

// ---------------------------------------------------------------------------
// Tokens
// ---------------------------------------------------------------------------

/// Nothing in the text parts it: white space stands only between quotation marks.
pub open spec fn is_one_token(w: Seq<char>) -> bool {
    forall|rest: Seq<char>, cur: Seq<char>| #[trigger]
        tokens_from(w + rest, cur, None) == tokens_from(rest, cur + w, None)
}

proof fn lemma_plain_is_one_token(w: Seq<char>, rest: Seq<char>, cur: Seq<char>)
    requires
        forall|i: int| 0 <= i < w.len() ==> !is_ws(#[trigger] w[i]) && !is_quote(w[i]),
    ensures
        tokens_from(w + rest, cur, None) == tokens_from(rest, cur + w, None),
    decreases w.len(),
{
    if w.len() == 0 {
        assert(w + rest =~= rest);
        assert(cur + w =~= cur);
    } else {
        let s = w + rest;
        assert(s[0] == w[0]);
        assert(s.skip(1) =~= w.skip(1) + rest);
        lemma_plain_is_one_token(w.skip(1), rest, cur.push(w[0]));
        assert(cur.push(w[0]) + w.skip(1) =~= cur + w);
    }
}

proof fn lemma_inside_quotes(v: Seq<char>, q: char, rest: Seq<char>, cur: Seq<char>)
    requires
        !v.contains(q),
    ensures
        tokens_from(v + seq![q] + rest, cur, Some(q)) == tokens_from(
            rest,
            cur + v + seq![q],
            None,
        ),
    decreases v.len(),
{
    let s = v + seq![q] + rest;
    if v.len() == 0 {
        assert(s[0] == q);
        assert(s.skip(1) =~= rest);
        assert(cur + v + seq![q] =~= cur.push(q));
    } else {
        assert(s[0] == v[0]);
        assert(v.contains(v[0]));
        assert(s.skip(1) =~= v.skip(1) + seq![q] + rest);
        assert forall|i: int| 0 <= i < v.skip(1).len() implies v.skip(1)[i] != q by {
            assert(v.contains(v[i + 1]));
        }
        lemma_inside_quotes(v.skip(1), q, rest, cur.push(v[0]));
        assert(cur.push(v[0]) + v.skip(1) + seq![q] =~= cur + v + seq![q]);
    }
}

proof fn lemma_pattern_is_one_token(p: WrittenPattern)
    requires
        p.wf(),
    ensures
        is_one_token(p.text()),
{
    let w = p.text();
    assert forall|rest: Seq<char>, cur: Seq<char>| #[trigger]
        tokens_from(w + rest, cur, None) == tokens_from(rest, cur + w, None) by {
        match p.quote {
            Some(q) => {
                let s = w + rest;
                assert(s[0] == q);
                assert(s.skip(1) =~= p.value + seq![q] + rest);
                lemma_inside_quotes(p.value, q, rest, cur.push(q));
                assert(cur.push(q) + p.value + seq![q] =~= cur + w);
            },
            None => {
                lemma_plain_is_one_token(w, rest, cur);
            },
        }
    }
}

proof fn lemma_one_token_append(a: Seq<char>, b: Seq<char>)
    requires
        is_one_token(a),
        is_one_token(b),
    ensures
        is_one_token(a + b),
{
    let w = a + b;
    assert forall|rest: Seq<char>, cur: Seq<char>| #[trigger]
        tokens_from(w + rest, cur, None) == tokens_from(rest, cur + w, None) by {
        assert(w + rest =~= a + (b + rest));
        assert(tokens_from(a + (b + rest), cur, None) == tokens_from(b + rest, cur + a, None));
        assert(tokens_from(b + rest, cur + a, None) == tokens_from(rest, cur + a + b, None));
        assert(cur + a + b =~= cur + w);
    }
}

proof fn lemma_row_is_one_token(row: Seq<WrittenPattern>)
    requires
        row.len() > 0,
        forall|i: int| 0 <= i < row.len() ==> (#[trigger] row[i]).wf(),
    ensures
        is_one_token(row_text(row)),
    decreases row.len(),
{
    let n = row.len() - 1;
    assert(row[n].wf());
    lemma_pattern_is_one_token(row[n]);
    if n == 0 {
        assert(row_text(row) == texts(row)[0]);
    } else {
        let head = row.drop_last();
        assert forall|i: int| 0 <= i < head.len() implies (#[trigger] head[i]).wf() by {
            assert(row[i].wf());
        }
        lemma_row_is_one_token(head);
        assert(texts(row).drop_last() =~= texts(head));
        reveal_strlit(",");
        let comma = ","@;
        assert(comma.len() == 1 && comma[0] == ',');
        assert forall|rest: Seq<char>, cur: Seq<char>| #[trigger]
            tokens_from(comma + rest, cur, None) == tokens_from(rest, cur + comma, None) by {
            lemma_plain_is_one_token(comma, rest, cur);
        }
        lemma_one_token_append(row_text(head), comma);
        lemma_one_token_append(row_text(head) + comma, row[n].text());
        assert(row_text(row) == row_text(head) + comma + row[n].text());
    }
}

/// Tokens with a space between neighbours are found again.
proof fn lemma_joined_tokens_are_found(ts: Seq<Seq<char>>)
    requires
        forall|i: int| 0 <= i < ts.len() ==> (#[trigger] ts[i]).len() > 0 && is_one_token(ts[i]),
    ensures
        header_tokens(join(ts, " "@)) == ts,
{
    lemma_joined_tokens(ts, Seq::empty());
    let text = join(ts, " "@);
    assert(text + Seq::<char>::empty() =~= text);
    if ts.len() == 0 {
        assert(header_tokens(text) =~= ts);
    } else {
        let last = ts.last();
        let e = Seq::<char>::empty();
        assert(last == ts[ts.len() - 1]);
        assert(tokens_from(e, last, None) == piece(last));
        assert(ts =~= ts.drop_last() + piece(last));
    }
}

#[verifier::rlimit(30)]
proof fn lemma_joined_tokens(ts: Seq<Seq<char>>, rest: Seq<char>)
    requires
        forall|i: int| 0 <= i < ts.len() ==> (#[trigger] ts[i]).len() > 0 && is_one_token(ts[i]),
    ensures
        ts.len() > 0 ==> header_tokens(join(ts, " "@) + rest) == ts.drop_last() + tokens_from(
            rest,
            ts.last(),
            None,
        ),
    decreases ts.len(),
{
    reveal_strlit(" ");
    let e = Seq::<char>::empty();
    if ts.len() == 1 {
        let w = ts[0];
        assert(join(ts, " "@) == w);
        assert(is_one_token(w));
        assert(tokens_from(w + rest, e, None) == tokens_from(rest, e + w, None));
        assert(e + w =~= w);
        assert(ts.drop_last() =~= Seq::<Seq<char>>::empty());
        assert(ts.drop_last() + tokens_from(rest, w, None) =~= tokens_from(rest, w, None));
    } else if ts.len() > 1 {
        let head = ts.drop_last();
        let w = ts.last();
        assert(w == ts[ts.len() - 1]);
        assert forall|i: int| 0 <= i < head.len() implies (#[trigger] head[i]).len() > 0
            && is_one_token(head[i]) by {
            assert(head[i] == ts[i]);
        }
        let more = " "@ + w + rest;
        lemma_joined_tokens(head, more);
        assert(join(ts, " "@) + rest =~= join(head, " "@) + more);
        assert(more[0] == ' ');
        assert(more.skip(1) =~= w + rest);
        assert(head.last() == ts[ts.len() - 2]);
        assert(tokens_from(more, head.last(), None) == piece(head.last()) + tokens_from(
            w + rest,
            e,
            None,
        ));
        assert(tokens_from(w + rest, e, None) == tokens_from(rest, e + w, None));
        assert(e + w =~= w);
        assert(head.drop_last() + (piece(head.last()) + tokens_from(rest, w, None)) =~= head
            + tokens_from(rest, w, None));
    }
}

// ---------------------------------------------------------------------------
// Patterns
// ---------------------------------------------------------------------------

#[verifier::rlimit(30)]
proof fn lemma_cleaned_row(row: Seq<WrittenPattern>, keep_empty: bool)
    requires
        forall|i: int| 0 <= i < row.len() ==> (#[trigger] row[i]).wf(),
    ensures
        cleaned(texts(row), keep_empty) == counting(row, keep_empty),
    decreases row.len(),
{
    reveal(Seq::filter);
    let ts = texts(row);
    if row.len() == 0 {
        assert(values(row) =~= Seq::<Seq<char>>::empty());
    } else {
        let head = row.drop_last();
        let p = row.last();
        assert(row[row.len() - 1].wf());
        assert forall|i: int| 0 <= i < head.len() implies (#[trigger] head[i]).wf() by {
            assert(row[i].wf());
        }
        lemma_cleaned_row(head, keep_empty);
        assert(ts.drop_last() =~= texts(head));
        assert(values(row).drop_last() =~= values(head));
        assert(values(row).last() == p.value);
        let w = p.text();
        assert(ts.last() == w);
        match p.quote {
            Some(q) => {
                assert(w[0] == q && w.last() == q && w.len() == p.value.len() + 2);
                assert(!is_ws(q));
                law_trimmed_text_stays(w);
                assert(unquote(w) =~= p.value);
            },
            None => {
                law_trimmed_text_stays(w);
                assert(w.len() > 0 ==> !is_quote(w[0]));
                assert(unquote(w) == w);
            },
        }
        assert(unquote(trim(w)) == p.value);
        assert(values(row) =~= values(head).push(p.value));
    }
}

proof fn lemma_patterns_of_row(row: Seq<WrittenPattern>, keep_empty: bool)
    requires
        row.len() > 0,
        forall|i: int| 0 <= i < row.len() ==> (#[trigger] row[i]).wf(),
    ensures
        patterns_of(row_text(row), keep_empty) == counting(row, keep_empty),
{
    reveal_strlit(",");
    let ts = texts(row);
    assert(","@ =~= seq![',']);
    assert forall|i: int, j: int| 0 <= i < ts.len() && 0 <= j < ts[i].len() implies !","@.contains(
        #[trigger] ts[i][j],
    ) by {
        let p = row[i];
        assert(p.wf());
        let c = ts[i][j];
        match p.quote {
            Some(q) => {
                if 0 < j < ts[i].len() - 1 {
                    assert(c == p.value[j - 1]);
                    assert(p.value.contains(c));
                }
            },
            None => {
                assert(p.value.contains(c));
            },
        }
        assert(c != ',');
    }
    assert(","@[0] == ',');
    law_joined_parts_are_found(ts, ',', ","@);
    lemma_cleaned_row(row, keep_empty);
}

proof fn lemma_all_patterns(rows: Seq<Seq<WrittenPattern>>)
    requires
        forall|i: int| 0 <= i < rows.len() ==> row_wf(#[trigger] rows[i]),
    ensures
        all_patterns(rows.map_values(|row: Seq<WrittenPattern>| row_text(row))) == rows.map_values(
            |row: Seq<WrittenPattern>| counting(row, false),
        ).flatten_alt(),
    decreases rows.len(),
{
    let tokens = rows.map_values(|row: Seq<WrittenPattern>| row_text(row));
    let parts = rows.map_values(|row: Seq<WrittenPattern>| counting(row, false));
    if rows.len() > 0 {
        let head = rows.drop_last();
        let last = rows.last();
        assert(row_wf(rows[rows.len() - 1]));
        assert forall|i: int| 0 <= i < head.len() implies row_wf(#[trigger] head[i]) by {
            assert(row_wf(rows[i]));
        }
        lemma_all_patterns(head);
        lemma_patterns_of_row(last, false);
        assert(tokens.drop_last() =~= head.map_values(
            |row: Seq<WrittenPattern>| row_text(row),
        ));
        assert(parts.drop_last() =~= head.map_values(
            |row: Seq<WrittenPattern>| counting(row, false),
        ));
        assert(tokens.last() == row_text(last));
        assert(parts.last() == counting(last, false));
    }
}

// ---------------------------------------------------------------------------
// Keywords
// ---------------------------------------------------------------------------

proof fn lemma_words()
    ensures
        "all"@.len() == 3 && "all"@[0] == 'a',
        "host"@.len() == 4 && "host"@[0] == 'h',
        "originalhost"@.len() == 12 && "originalhost"@[0] == 'o',
        "user"@.len() == 4 && "user"@[0] == 'u',
        "localuser"@.len() == 9 && "localuser"@[0] == 'l',
        "tagged"@.len() == 6 && "tagged"@[0] == 't',
        "version"@.len() == 7 && "version"@[0] == 'v',
        "command"@.len() == 7 && "command"@[0] == 'c',
        "sessiontype"@.len() == 11 && "sessiontype"@[0] == 's',
        "localnetwork"@.len() == 12 && "localnetwork"@[0] == 'l',
        "canonical"@.len() == 9 && "canonical"@[0] == 'c',
        "final"@.len() == 5 && "final"@[0] == 'f',
        "exec"@.len() == 4 && "exec"@[0] == 'e',
        "address"@.len() == 7 && "address"@[0] == 'a',
{
    reveal_strlit("all");
    reveal_strlit("host");
    reveal_strlit("originalhost");
    reveal_strlit("user");
    reveal_strlit("localuser");
    reveal_strlit("tagged");
    reveal_strlit("version");
    reveal_strlit("command");
    reveal_strlit("sessiontype");
    reveal_strlit("localnetwork");
    reveal_strlit("canonical");
    reveal_strlit("final");
    reveal_strlit("exec");
    reveal_strlit("address");
}

/// A token is a keyword exactly where it is one of the words, and it is the keyword of its word,
/// whatever its case, with or without an exclamation mark.
pub proof fn law_words_are_keywords(token: Seq<char>, k: MatchKeyword)
    ensures
        lower(bare(token)) == word_for(k) ==> keyword_of(token) == Some(k),
        keyword_of(token) is Some <==> is_reserved(token),
{
    lemma_words();
    let w = lower(bare(token));
    if keyword_of(token) is Some && w != "address"@ {
        assert(w == word_for(keyword_of(token)->0));
    }
    if is_reserved(token) && w != "address"@ {
        let j = choose|j: MatchKeyword| w == #[trigger] word_for(j);
        assert(keyword_of(token) is Some);
    }
}

// ---------------------------------------------------------------------------
// Reading
// ---------------------------------------------------------------------------

pub open spec fn starts_with_keyword(tokens: Seq<Seq<char>>) -> bool {
    tokens.len() == 0 || is_reserved(tokens[0])
}

proof fn lemma_until_keyword(rows: Seq<Seq<char>>, tail: Seq<Seq<char>>)
    requires
        forall|i: int| 0 <= i < rows.len() ==> !is_reserved(#[trigger] rows[i]),
        starts_with_keyword(tail),
    ensures
        until_keyword(rows + tail) == rows.len(),
    decreases rows.len(),
{
    let all = rows + tail;
    if rows.len() == 0 {
        assert(all =~= tail);
        if tail.len() > 0 {
            law_words_are_keywords(tail[0], MatchKeyword::All);
        }
    } else {
        assert(all[0] == rows[0]);
        law_words_are_keywords(rows[0], MatchKeyword::All);
        assert(all.skip(1) =~= rows.skip(1) + tail);
        assert forall|i: int| 0 <= i < rows.skip(1).len() implies !is_reserved(
            #[trigger] rows.skip(1)[i],
        ) by {
            assert(!is_reserved(rows[i + 1]));
        }
        lemma_until_keyword(rows.skip(1), tail);
    }
}

/// What has been read with what the clause says.
pub open spec fn with_clause(acc: HeaderView, c: Clause) -> HeaderView {
    if c.keyword == MatchKeyword::Unsupported {
        HeaderView { unsupported: acc.unsupported.push(join(c.tokens(), " "@)), ..acc }
    } else {
        HeaderView {
            criteria: acc.criteria.push(
                CriterionView { keyword: c.keyword, patterns: c.patterns(), negated: c.negated },
            ),
            ..acc
        }
    }
}

#[verifier::rlimit(30)]
proof fn lemma_name(c: Clause)
    requires
        lower(c.name) == word_for(c.keyword),
    ensures
        ({
            let token = c.tokens()[0];
            &&& is_negated(token) == c.negated
            &&& bare(token) == c.name
            &&& keyword_of(token) == Some(c.keyword)
            &&& is_reserved(token)
            &&& token.len() > 0
            &&& forall|i: int|
                0 <= i < token.len() ==> !is_ws(#[trigger] token[i]) && !is_quote(token[i])
        }),
{
    lemma_words();
    let token = c.tokens()[0];
    assert(lower(c.name).len() == c.name.len());
    assert(c.name.len() > 0);
    assert(lower(c.name)[0] == lower_char(c.name[0]));
    assert(c.name[0] != '!');
    if c.negated {
        assert(token.skip(1) =~= c.name);
    }
    law_words_are_keywords(token, c.keyword);
    lemma_letters(c.keyword);
    assert forall|i: int| 0 <= i < token.len() implies !is_ws(#[trigger] token[i]) && !is_quote(
        token[i],
    ) by {
        let j = if c.negated {
            i - 1
        } else {
            i
        };
        if j >= 0 {
            assert(token[i] == c.name[j]);
            assert(lower(c.name)[j] == lower_char(c.name[j]));
            let letter = word_for(c.keyword)[j];
            assert('a' as u32 <= letter as u32 <= 'z' as u32);
        }
    }
}

proof fn lemma_letters(k: MatchKeyword)
    ensures
        forall|j: int|
            0 <= j < word_for(k).len() ==> 'a' as u32 <= (#[trigger] word_for(k)[j]) as u32
                <= 'z' as u32,
{
    reveal_strlit("all");
    reveal_strlit("host");
    reveal_strlit("originalhost");
    reveal_strlit("user");
    reveal_strlit("localuser");
    reveal_strlit("tagged");
    reveal_strlit("version");
    reveal_strlit("command");
    reveal_strlit("sessiontype");
    reveal_strlit("localnetwork");
    reveal_strlit("canonical");
    reveal_strlit("final");
    reveal_strlit("exec");
}

#[verifier::spinoff_prover]
#[verifier::rlimit(40)]
proof fn lemma_read_clause(c: Clause, tail: Seq<Seq<char>>, acc: HeaderView)
    requires
        c.wf(),
        starts_with_keyword(tail),
    ensures
        read_tokens(c.tokens() + tail, acc) == read_tokens(tail, with_clause(acc, c)),
{
    lemma_name(c);
    let tokens = c.tokens() + tail;
    let texts = c.rows.map_values(|row: Seq<WrittenPattern>| row_text(row));
    let rest = texts + tail;
    let n = texts.len() as int;
    assert(tokens[0] == c.tokens()[0]);
    assert(tokens.skip(1) =~= rest);
    assert forall|i: int| 0 <= i < texts.len() implies !is_reserved(#[trigger] texts[i]) by {
        assert(row_wf(c.rows[i]));
    }
    lemma_until_keyword(texts, tail);
    assert(rest.take(n) =~= texts);
    assert(rest.skip(n) =~= tail);
    let k = c.keyword;
    if takes_no_patterns(k) {
        assert(rest =~= tail);
        assert(c.patterns() =~= Seq::<Seq<char>>::empty());
    } else if k == MatchKeyword::Unsupported {
        assert(c.tokens() =~= seq![tokens[0]] + texts);
    } else if takes_many_rows(k) {
        lemma_all_patterns(c.rows);
        assert(c.rows.map_values(
            |row: Seq<WrittenPattern>| counting(row, keeps_empty(k)),
        ) =~= c.rows.map_values(|row: Seq<WrittenPattern>| counting(row, false)));
    } else {
        let row = c.rows[0];
        assert(row_wf(row));
        assert(rest[0] == texts[0]);
        law_words_are_keywords(rest[0], MatchKeyword::All);
        lemma_patterns_of_row(row, keeps_empty(k));
        lemma_one_row(c);
        assert(rest.skip(1) =~= tail);
    }
}

proof fn lemma_one_row(c: Clause)
    requires
        c.rows.len() == 1,
    ensures
        c.patterns() == counting(c.rows[0], keeps_empty(c.keyword)),
{
    let parts = c.rows.map_values(
        |row: Seq<WrittenPattern>| counting(row, keeps_empty(c.keyword)),
    );
    assert(parts.drop_last() =~= Seq::<Seq<Seq<char>>>::empty());
    assert(parts.drop_last().flatten_alt() =~= Seq::<Seq<char>>::empty());
    assert(parts.flatten_alt() =~= parts[0]);
}

proof fn lemma_tokens_of(cs: Seq<Clause>)
    requires
        cs.len() > 0,
    ensures
        tokens_of(cs) == cs[0].tokens() + tokens_of(cs.skip(1)),
{
    let all = cs.map_values(|c: Clause| c.tokens());
    assert(all.drop_first() =~= cs.skip(1).map_values(|c: Clause| c.tokens()));
    assert(all.first() == cs[0].tokens());
}

proof fn lemma_filter_front<A>(s: Seq<A>, p: spec_fn(A) -> bool)
    requires
        s.len() > 0,
    ensures
        s.filter(p) == (if p(s[0]) {
            seq![s[0]]
        } else {
            Seq::empty()
        }) + s.skip(1).filter(p),
{
    let one = seq![s[0]];
    assert(s =~= one + s.skip(1));
    Seq::filter_distributes_over_add(one, s.skip(1), p);
    reveal(Seq::filter);
    assert(one.drop_last() =~= Seq::<A>::empty());
    assert(one.drop_last().filter(p) =~= Seq::<A>::empty());
    assert(one.filter(p) =~= (if p(s[0]) {
        seq![s[0]]
    } else {
        Seq::empty()
    }));
}

proof fn lemma_read_clauses(cs: Seq<Clause>, tail: Seq<Seq<char>>, acc: HeaderView)
    requires
        forall|i: int| 0 <= i < cs.len() ==> (#[trigger] cs[i]).wf(),
        starts_with_keyword(tail),
    ensures
        read_tokens(tokens_of(cs) + tail, acc) == read_tokens(
            tail,
            HeaderView {
                criteria: acc.criteria + criteria_of(cs),
                unsupported: acc.unsupported + passed_over(cs),
            },
        ),
        starts_with_keyword(tokens_of(cs) + tail),
    decreases cs.len(),
{
    if cs.len() == 0 {
        reveal(Seq::filter);
        assert(cs.map_values(|c: Clause| c.tokens()).flatten() =~= Seq::<Seq<char>>::empty());
        assert(tokens_of(cs) + tail =~= tail);
        assert(acc.criteria + criteria_of(cs) =~= acc.criteria);
        assert(acc.unsupported + passed_over(cs) =~= acc.unsupported);
    } else {
        let c = cs[0];
        let rest = cs.skip(1);
        assert forall|i: int| 0 <= i < rest.len() implies (#[trigger] rest[i]).wf() by {
            assert(cs[i + 1].wf());
        }
        lemma_tokens_of(cs);
        let next = with_clause(acc, c);
        lemma_read_clauses(rest, tail, next);
        lemma_read_clause(c, tokens_of(rest) + tail, acc);
        lemma_name(c);
        assert(tokens_of(cs) + tail =~= c.tokens() + (tokens_of(rest) + tail));
        assert((tokens_of(cs) + tail)[0] == c.tokens()[0]);
        lemma_filter_front(cs, can_be_judged());
        lemma_filter_front(cs, cannot_be_judged());
        assert(next.criteria + criteria_of(rest) =~= acc.criteria + criteria_of(cs));
        assert(next.unsupported + passed_over(rest) =~= acc.unsupported + passed_over(cs));
    }
}

#[verifier::rlimit(30)]
proof fn lemma_tokens_are_tokens(cs: Seq<Clause>)
    requires
        forall|i: int| 0 <= i < cs.len() ==> (#[trigger] cs[i]).wf(),
    ensures
        forall|i: int|
            0 <= i < tokens_of(cs).len() ==> (#[trigger] tokens_of(cs)[i]).len() > 0
                && is_one_token(tokens_of(cs)[i]),
        cs.len() > 0 ==> tokens_of(cs).len() > 0,
    decreases cs.len(),
{
    if cs.len() == 0 {
        assert(cs.map_values(|c: Clause| c.tokens()).flatten() =~= Seq::<Seq<char>>::empty());
    } else {
        let c = cs[0];
        let rest = cs.skip(1);
        assert(c.wf());
        assert forall|i: int| 0 <= i < rest.len() implies (#[trigger] rest[i]).wf() by {
            assert(cs[i + 1].wf());
        }
        lemma_tokens_of(cs);
        lemma_tokens_are_tokens(rest);
        lemma_name(c);
        let mine = c.tokens();
        assert forall|i: int| 0 <= i < tokens_of(cs).len() implies (#[trigger] tokens_of(
            cs,
        )[i]).len() > 0 && is_one_token(tokens_of(cs)[i]) by {
            if i == 0 {
                let token = mine[0];
                assert forall|rest: Seq<char>, cur: Seq<char>| #[trigger]
                    tokens_from(token + rest, cur, None) == tokens_from(rest, cur + token, None) by {
                    lemma_plain_is_one_token(token, rest, cur);
                }
            } else if i < mine.len() {
                assert(row_wf(c.rows[i - 1]));
                lemma_row_is_one_token(c.rows[i - 1]);
                assert(mine[i] == row_text(c.rows[i - 1]));
            } else {
                assert(tokens_of(cs)[i] == tokens_of(rest)[i - mine.len()]);
            }
        }
    }
}

/// A header means the criteria that are written in it, in their order: each has the patterns that
/// stand behind its word, all of them, and is turned round where an exclamation mark stands before
/// the word. What cannot be judged is put down as it is written.
pub proof fn law_header_means_what_is_written(cs: Seq<Clause>)
    requires
        cs.len() > 0,
        forall|i: int| 0 <= i < cs.len() ==> (#[trigger] cs[i]).wf(),
    ensures
        header_meaning(join(tokens_of(cs), " "@)) == Ok::<
            (Option<Seq<CriterionView>>, Seq<Seq<char>>),
            Seq<char>,
        >(
            (
                if criteria_of(cs).len() > 0 {
                    Some(criteria_of(cs))
                } else {
                    None
                },
                passed_over(cs),
            ),
        ),
{
    let tokens = tokens_of(cs);
    let none = Seq::<Seq<char>>::empty();
    let start = HeaderView { criteria: Seq::empty(), unsupported: Seq::empty() };
    lemma_tokens_are_tokens(cs);
    lemma_joined_tokens_are_found(tokens);
    lemma_read_clauses(cs, none, start);
    assert(tokens + none =~= tokens);
    assert(start.criteria + criteria_of(cs) =~= criteria_of(cs));
    assert(start.unsupported + passed_over(cs) =~= passed_over(cs));
}

/// A word that needs patterns and has none behind it makes the header no header, whatever is
/// written before it.
#[verifier::rlimit(30)]
pub proof fn law_missing_patterns_are_refused(cs: Seq<Clause>, c: Clause, ds: Seq<Clause>)
    requires
        forall|i: int| 0 <= i < cs.len() ==> (#[trigger] cs[i]).wf(),
        forall|i: int| 0 <= i < ds.len() ==> (#[trigger] ds[i]).wf(),
        ds.len() > 0 ==> ds[0].keyword != MatchKeyword::Unsupported,
        lower(c.name) == word_for(c.keyword),
        c.rows.len() == 0,
        !takes_no_patterns(c.keyword),
        c.keyword != MatchKeyword::Unsupported,
    ensures
        header_meaning(join(tokens_of(cs) + c.tokens() + tokens_of(ds), " "@)) == Err::<
            (Option<Seq<CriterionView>>, Seq<Seq<char>>),
            Seq<char>,
        >("Match criterion is missing patterns"@),
{
    let start = HeaderView { criteria: Seq::empty(), unsupported: Seq::empty() };
    let token = c.tokens()[0];
    lemma_name(c);
    assert(c.tokens() =~= seq![token]);
    lemma_tokens_are_tokens(cs);
    lemma_tokens_are_tokens(ds);
    lemma_read_clauses(ds, Seq::empty(), start);
    let none = Seq::<Seq<char>>::empty();
    let after = tokens_of(ds);
    assert(after + none =~= after);
    let tail = c.tokens() + after;
    let tokens = tokens_of(cs) + c.tokens() + after;
    assert(tokens =~= tokens_of(cs) + tail);
    assert forall|i: int| 0 <= i < tokens.len() implies (#[trigger] tokens[i]).len() > 0
        && is_one_token(tokens[i]) by {
        let n = tokens_of(cs).len();
        if i < n {
            assert(tokens[i] == tokens_of(cs)[i]);
        } else if i == n {
            assert forall|rest: Seq<char>, cur: Seq<char>| #[trigger]
                tokens_from(token + rest, cur, None) == tokens_from(rest, cur + token, None) by {
                lemma_plain_is_one_token(token, rest, cur);
            }
            assert(tokens[i] == token);
        } else {
            assert(tokens[i] == after[i - n - 1]);
        }
    }
    lemma_joined_tokens_are_found(tokens);
    lemma_read_clauses(cs, tail, start);
    let acc = HeaderView {
        criteria: start.criteria + criteria_of(cs),
        unsupported: start.unsupported + passed_over(cs),
    };
    assert(tail[0] == token);
    assert(tail.skip(1) =~= after);
    lemma_until_keyword(none, after);
    assert(none + after =~= after);
    if ds.len() > 0 {
        lemma_tokens_of(ds);
        assert(ds[0].wf());
        lemma_name(ds[0]);
        assert(after[0] == ds[0].tokens()[0]);
        assert(is_supported_keyword(after[0]));
    }
    assert(after.take(0) =~= none);
    assert(all_patterns(none) =~= none);
    assert(read_tokens(tail, acc) == Err::<HeaderView, Seq<char>>(missing_patterns()));
}

/// The words behind `Match` that are not known start a stretch that cannot be judged.
#[verifier::rlimit(30)]
pub proof fn law_unknown_words_are_passed_over(words: Seq<Seq<char>>, cs: Seq<Clause>)
    requires
        words.len() > 0,
        forall|i: int|
            0 <= i < words.len() ==> (#[trigger] words[i]).len() > 0 && is_plain_text(words[i])
                && !is_reserved(words[i]),
        forall|i: int| 0 <= i < cs.len() ==> (#[trigger] cs[i]).wf(),
    ensures
        header_meaning(join(words + tokens_of(cs), " "@)) == Ok::<
            (Option<Seq<CriterionView>>, Seq<Seq<char>>),
            Seq<char>,
        >(
            (
                if criteria_of(cs).len() > 0 {
                    Some(criteria_of(cs))
                } else {
                    None
                },
                seq![join(words, " "@)] + passed_over(cs),
            ),
        ),
{
    let start = HeaderView { criteria: Seq::empty(), unsupported: Seq::empty() };
    let none = Seq::<Seq<char>>::empty();
    let after = tokens_of(cs);
    let tokens = words + after;
    lemma_tokens_are_tokens(cs);
    assert forall|i: int| 0 <= i < tokens.len() implies (#[trigger] tokens[i]).len() > 0
        && is_one_token(tokens[i]) by {
        if i < words.len() {
            let token = words[i];
            assert(tokens[i] == token);
            assert forall|rest: Seq<char>, cur: Seq<char>| #[trigger]
                tokens_from(token + rest, cur, None) == tokens_from(rest, cur + token, None) by {
                lemma_plain_is_one_token(token, rest, cur);
            }
        } else {
            assert(tokens[i] == after[i - words.len()]);
        }
    }
    lemma_joined_tokens_are_found(tokens);
    let rest = words.skip(1);
    assert(tokens[0] == words[0]);
    assert(!is_reserved(words[0]));
    law_words_are_keywords(words[0], MatchKeyword::All);
    assert(tokens.skip(1) =~= rest + after);
    assert forall|i: int| 0 <= i < rest.len() implies !is_reserved(#[trigger] rest[i]) by {
        assert(rest[i] == words[i + 1]);
    }
    let next = HeaderView { unsupported: seq![join(words, " "@)], ..start };
    lemma_read_clauses(cs, none, next);
    assert(after + none =~= after);
    lemma_until_keyword(rest, after);
    let n = rest.len() as int;
    assert((rest + after).take(n) =~= rest);
    assert((rest + after).skip(n) =~= after);
    assert(seq![words[0]] + rest =~= words);
    assert(start.unsupported.push(join(words, " "@)) =~= next.unsupported);
    assert(next.criteria + criteria_of(cs) =~= criteria_of(cs));
    assert(read_tokens(tokens, start) == read_tokens(after, next));
}

/// No white space, comma or quotation mark stands in the text.
pub open spec fn is_plain_text(s: Seq<char>) -> bool {
    forall|i: int|
        0 <= i < s.len() ==> !is_ws(#[trigger] s[i]) && !is_quote(s[i]) && s[i] != ','
}

/// The names behind a word of a header, with commas between them, are all patterns of the
/// criterion, in their order.
pub proof fn law_each_listed_name_is_a_pattern(
    keyword: MatchKeyword,
    names: Seq<Seq<char>>,
    negated: bool,
)
    requires
        !takes_no_patterns(keyword),
        keyword != MatchKeyword::Unsupported,
        names.len() > 0,
        forall|i: int|
            0 <= i < names.len() ==> (#[trigger] names[i]).len() > 0 && is_plain_text(names[i]),
        !is_reserved(join(names, ","@)),
    ensures
        header_meaning(
            (if negated {
                "!"@
            } else {
                ""@
            }) + word_for(keyword) + " "@ + join(names, ","@),
        ) == Ok::<(Option<Seq<CriterionView>>, Seq<Seq<char>>), Seq<char>>(
            (Some(seq![CriterionView { keyword, patterns: names, negated }]), Seq::empty()),
        ),
{
    let c = clause_of_names(keyword, names, negated);
    lemma_clause_of_names(keyword, names, negated);
    lemma_single_clause(c);
    lemma_text_of_names(keyword, names, negated);
}

/// The clause with those names in one row.
spec fn clause_of_names(keyword: MatchKeyword, names: Seq<Seq<char>>, negated: bool) -> Clause {
    Clause {
        keyword,
        name: word_for(keyword),
        negated,
        rows: seq![
            names.map_values(|s: Seq<char>| WrittenPattern { value: s, quote: None }),
        ],
    }
}

proof fn lemma_clause_of_names(keyword: MatchKeyword, names: Seq<Seq<char>>, negated: bool)
    requires
        !takes_no_patterns(keyword),
        keyword != MatchKeyword::Unsupported,
        names.len() > 0,
        forall|i: int|
            0 <= i < names.len() ==> (#[trigger] names[i]).len() > 0 && is_plain_text(names[i]),
        !is_reserved(join(names, ","@)),
    ensures
        clause_of_names(keyword, names, negated).wf(),
        clause_of_names(keyword, names, negated).patterns() == names,
{
    let c = clause_of_names(keyword, names, negated);
    let row = c.rows[0];
    assert(texts(row) =~= names);
    assert(values(row) =~= names);
    assert forall|i: int| 0 <= i < row.len() implies (#[trigger] row[i]).wf() by {
        assert(is_plain_text(names[i]));
        assert(row[i].value == names[i]);
    }
    assert(lower(c.name) =~= c.name) by {
        lemma_letters(keyword);
    }
    assert(names[0].len() > 0);
    lemma_joined_is_longer(names);
    assert(row_wf(row));
    lemma_one_row(c);
    lemma_nothing_filtered(names);
}

proof fn lemma_text_of_names(keyword: MatchKeyword, names: Seq<Seq<char>>, negated: bool)
    ensures
        join(clause_of_names(keyword, names, negated).tokens(), " "@) == (if negated {
            "!"@
        } else {
            ""@
        }) + word_for(keyword) + " "@ + join(names, ","@),
{
    let c = clause_of_names(keyword, names, negated);
    let row = c.rows[0];
    let ts = c.tokens();
    assert(texts(row) =~= names);
    reveal_strlit("!");
    reveal_strlit("");
    assert(ts =~= seq![ts[0], row_text(row)]);
    assert(ts.drop_last() =~= seq![ts[0]]);
    assert("!"@ =~= seq!['!']);
    assert(ts[0] =~= (if negated {
        "!"@
    } else {
        ""@
    }) + word_for(keyword));
    assert(join(ts, " "@) == join(ts.drop_last(), " "@) + " "@ + ts.last());
}

proof fn lemma_single_clause(c: Clause)
    requires
        c.wf(),
        c.keyword != MatchKeyword::Unsupported,
    ensures
        header_meaning(join(c.tokens(), " "@)) == Ok::<
            (Option<Seq<CriterionView>>, Seq<Seq<char>>),
            Seq<char>,
        >(
            (
                Some(
                    seq![
                        CriterionView {
                            keyword: c.keyword,
                            patterns: c.patterns(),
                            negated: c.negated,
                        },
                    ],
                ),
                Seq::empty(),
            ),
        ),
{
    let cs = seq![c];
    let none = Seq::<Clause>::empty();
    lemma_tokens_of(cs);
    assert(cs.skip(1) =~= none);
    assert(none.map_values(|c: Clause| c.tokens()).flatten() =~= Seq::<Seq<char>>::empty());
    assert(tokens_of(cs) =~= c.tokens());
    law_header_means_what_is_written(cs);
    lemma_filter_front(cs, can_be_judged());
    lemma_filter_front(cs, cannot_be_judged());
    assert(none.filter(can_be_judged()) =~= none && none.filter(cannot_be_judged()) =~= none) by {
        reveal(Seq::filter);
    }
    assert(criteria_of(cs) =~= seq![
        CriterionView { keyword: c.keyword, patterns: c.patterns(), negated: c.negated },
    ]);
    assert(passed_over(cs) =~= Seq::<Seq<char>>::empty());
}

proof fn lemma_joined_is_longer(names: Seq<Seq<char>>)
    requires
        names.len() > 0,
        names[0].len() > 0,
    ensures
        join(names, ","@).len() > 0,
    decreases names.len(),
{
    if names.len() > 1 {
        lemma_joined_is_longer(names.drop_last());
    }
}

proof fn lemma_nothing_filtered(names: Seq<Seq<char>>)
    requires
        forall|i: int| 0 <= i < names.len() ==> (#[trigger] names[i]).len() > 0,
    ensures
        names.filter(not_empty()) == names,
    decreases names.len(),
{
    reveal(Seq::filter);
    if names.len() > 0 {
        let head = names.drop_last();
        assert forall|i: int| 0 <= i < head.len() implies (#[trigger] head[i]).len() > 0 by {
            assert(head[i] == names[i]);
        }
        lemma_nothing_filtered(head);
        assert(names.last() == names[names.len() - 1]);
        assert(head.push(names.last()) =~= names);
    }
}

// ---------------------------------------------------------------------------
// Blocks
// ---------------------------------------------------------------------------

/// The list has the text in it, and not behind an exclamation mark.
pub open spec fn is_named(names: Seq<Seq<char>>, text: Seq<char>) -> bool {
    &&& names.contains(text)
    &&& !(text.len() > 0 && text[0] == '!')
    &&& !names.contains(seq!['!'] + text)
}

/// The text is known, and the list names it.
pub open spec fn is_known_and_named(names: Seq<Seq<char>>, text: Option<Seq<char>>) -> bool {
    text is Some && is_named(names, text->0)
}

/// What the criterion speaks of is so, apart from an exclamation mark before it.
pub open spec fn is_so(k: CriterionView, c: ContextView) -> bool {
    match k.keyword {
        MatchKeyword::All => true,
        MatchKeyword::Canonical => c.is_canonical,
        MatchKeyword::Final => c.is_final,
        MatchKeyword::Host => is_named(k.patterns, c.current_host),
        MatchKeyword::OriginalHost => is_named(k.patterns, c.original_host),
        MatchKeyword::User => is_known_and_named(k.patterns, c.current_user),
        MatchKeyword::LocalUser => is_known_and_named(k.patterns, c.local_user),
        MatchKeyword::Version => is_known_and_named(k.patterns, c.current_ssh_version),
        MatchKeyword::SessionType => is_known_and_named(k.patterns, c.session_type),
        MatchKeyword::Tagged => if c.current_tag is Some {
            is_named(k.patterns, c.current_tag->0)
        } else {
            is_named(k.patterns, Seq::empty())
        },
        MatchKeyword::Command => if c.command is Some {
            is_named(k.patterns, c.command->0)
        } else {
            is_named(k.patterns, Seq::empty())
        },
        _ => false,
    }
}

/// The patterns of the criterion match themselves alone.
pub open spec fn is_literal_criterion(k: CriterionView, c: ContextView) -> bool {
    &&& k.keyword != MatchKeyword::LocalNetwork
    &&& k.keyword != MatchKeyword::Unsupported
    &&& forall|i: int, t: Seq<char>|
        0 <= i < k.patterns.len() && #[trigger] is_asked(t, c) ==> is_plain(
            bare(#[trigger] k.patterns[i]),
            t,
        )
}

/// The text is one that criteria may speak of.
pub open spec fn is_asked(t: Seq<char>, c: ContextView) -> bool {
    ||| t == c.current_host
    ||| t == c.original_host
    ||| c.current_user == Some(t)
    ||| c.local_user == Some(t)
    ||| c.current_ssh_version == Some(t)
    ||| c.session_type == Some(t)
    ||| c.current_tag == Some(t)
    ||| c.command == Some(t)
    ||| t.len() == 0
}

proof fn lemma_literal_list(names: Seq<Seq<char>>, text: Seq<char>, v: Result<bool, Seq<char>>)
    requires
        list_may_say(names, text, v),
        forall|i: int| 0 <= i < names.len() ==> is_plain(bare(#[trigger] names[i]), text),
    ensures
        v == Ok::<bool, Seq<char>>(is_named(names, text)),
{
    let os = choose|os: Seq<Result<bool, Seq<char>>>| #[trigger]
        outcomes_may_be(names, text, os) && v == decide(names, os, false);
    assert forall|k: int| 0 <= k < names.len() implies #[trigger] os[k] == Ok::<bool, Seq<char>>(
        bare(names[k]) == text,
    ) by {
        assert(glob_may_say(bare(names[k]), text, os[k]));
        assert(is_plain(bare(names[k]), text));
    }
    lemma_decide_literals(names, os, text, false);
}

proof fn lemma_literal_criterion(k: CriterionView, c: ContextView, v: Result<bool, Seq<char>>)
    requires
        is_literal_criterion(k, c),
        criterion_may_say(k, c, v),
    ensures
        v == Ok::<bool, Seq<char>>(is_so(k, c) != k.negated),
{
    if let Some(t) = subject(k.keyword, c) {
        assert(t =~= Seq::<char>::empty() || t.len() > 0);
        assert(is_asked(t, c));
        assert forall|i: int| 0 <= i < k.patterns.len() implies is_plain(
            bare(#[trigger] k.patterns[i]),
            t,
        ) by {
            assert(is_asked(t, c));
        }
        lemma_literal_list(k.patterns, t, turned(v, k.negated));
    }
}

#[verifier::rlimit(30)]
proof fn lemma_literal_criteria(ks: Seq<CriterionView>, c: ContextView, v: Result<bool, Seq<char>>)
    requires
        forall|i: int| 0 <= i < ks.len() ==> is_literal_criterion(#[trigger] ks[i], c),
        criteria_may_say(ks, c, v),
    ensures
        v == Ok::<bool, Seq<char>>(
            forall|i: int| 0 <= i < ks.len() ==> is_so(#[trigger] ks[i], c) != ks[i].negated,
        ),
    decreases ks.len(),
{
    if ks.len() > 0 {
        assert(is_literal_criterion(ks[0], c));
        let rest = ks.skip(1);
        assert forall|i: int| 0 <= i < rest.len() implies is_literal_criterion(
            #[trigger] rest[i],
            c,
        ) by {
            assert(is_literal_criterion(ks[i + 1], c));
        }
        if v != Ok::<bool, Seq<char>>(true) && criterion_may_say(ks[0], c, v) {
            lemma_literal_criterion(ks[0], c, v);
            assert(!(is_so(ks[0], c) != ks[0].negated));
        } else {
            lemma_literal_criterion(ks[0], c, Ok(true));
            lemma_literal_criteria(rest, c, v);
            let all = forall|i: int|
                0 <= i < ks.len() ==> is_so(#[trigger] ks[i], c) != ks[i].negated;
            let later = forall|i: int|
                0 <= i < rest.len() ==> is_so(#[trigger] rest[i], c) != rest[i].negated;
            if all {
                assert forall|i: int| 0 <= i < rest.len() implies is_so(#[trigger] rest[i], c)
                    != rest[i].negated by {
                    assert(is_so(ks[i + 1], c) != ks[i + 1].negated);
                }
            }
            if later {
                assert forall|i: int| 0 <= i < ks.len() implies is_so(#[trigger] ks[i], c)
                    != ks[i].negated by {
                    if i > 0 {
                        assert(is_so(rest[i - 1], c) != rest[i - 1].negated);
                    }
                }
            }
        }
    }
}

/// A block with criteria whose patterns are names applies exactly where each criterion is so, or
/// is not so and is turned round; one with a condition that cannot be judged, or without any,
/// applies nowhere.
pub proof fn law_block_applies_where_all_is_so(
    b: BlockView,
    c: ContextView,
    v: Result<bool, Seq<char>>,
)
    requires
        block_may_apply(b, c, v),
        b.condition matches Some(ks) ==> forall|i: int|
            0 <= i < ks.len() ==> is_literal_criterion(#[trigger] ks[i], c),
    ensures
        v == Ok::<bool, Seq<char>>(
            b.unsupported.len() == 0 && b.condition is Some && forall|i: int|
                0 <= i < b.condition->0.len() ==> is_so(#[trigger] b.condition->0[i], c)
                    != b.condition->0[i].negated,
        ),
{
    if b.unsupported.len() == 0 {
        if let Some(ks) = b.condition {
            lemma_literal_criteria(ks, c, v);
        }
    }
}

/// A block `Match host a,b` applies exactly where the host is one of those that are named, and a
/// block `Match !host a,b` exactly where it is none of them.
#[verifier::rlimit(30)]
pub proof fn law_named_hosts_get_the_block(
    names: Seq<Seq<char>>,
    negated: bool,
    body: Seq<Seq<char>>,
    start: int,
    before_anchor: bool,
    c: ContextView,
    v: Result<bool, Seq<char>>,
)
    requires
        names.len() > 0,
        forall|i: int|
            0 <= i < names.len() ==> (#[trigger] names[i]).len() > 0 && is_plain_text(names[i])
                && names[i][0] != '!',
        forall|i: int, t: Seq<char>|
            0 <= i < names.len() && #[trigger] is_asked(t, c) ==> is_plain(
                #[trigger] names[i],
                t,
            ),
        !is_reserved(join(names, ","@)),
        ({
            let header = "Match "@ + (if negated {
                "!"@
            } else {
                ""@
            }) + "host "@ + join(names, ","@);
            let ls = seq![header] + body;
            &&& body_of(concat(ls)) is Ok
            &&& block_may_apply(block_of(ls, start, before_anchor), c, v)
        }),
    ensures
        v == Ok::<bool, Seq<char>>(names.contains(c.current_host) != negated),
{
    let mark = if negated {
        "!"@
    } else {
        ""@
    };
    let header = "Match "@ + mark + "host "@ + join(names, ","@);
    let text = mark + "host"@ + " "@ + join(names, ","@);
    let ls = seq![header] + body;
    reveal_strlit("Match ");
    reveal_strlit("Match");
    reveal_strlit("host ");
    reveal_strlit("host");
    reveal_strlit(" ");
    reveal_strlit("!");
    reveal_strlit("");
    assert("host "@ =~= "host"@ + " "@);
    assert("Match "@ =~= "Match"@ + " "@);
    assert(header =~= "Match"@ + " "@ + text);
    assert(text[0] == 'h' || text[0] == '!');
    lemma_last_of_joined(names);
    assert(text.last() == join(names, ","@).last());
    law_key_and_value("Match"@, text);
    law_trimmed_text_stays(header);
    law_each_listed_name_is_a_pattern(MatchKeyword::Host, names, negated);
    let b = block_of(ls, start, before_anchor);
    assert(ls[0] == header);
    let k = CriterionView { keyword: MatchKeyword::Host, patterns: names, negated };
    assert(b.condition == Some(seq![k]));
    assert forall|i: int, t: Seq<char>| 0 <= i < k.patterns.len() && #[trigger] is_asked(
        t,
        c,
    ) implies is_plain(bare(#[trigger] k.patterns[i]), t) by {
        assert(names[i][0] != '!');
        assert(is_plain(names[i], t));
    }
    assert(is_literal_criterion(k, c));
    law_block_applies_where_all_is_so(b, c, v);
    let ks = b.condition->0;
    assert(ks[0] == k);
    let host = c.current_host;
    if names.contains(host) {
        let i = choose|i: int| 0 <= i < names.len() && names[i] == host;
        assert(names[i][0] != '!');
    }
    if names.contains(seq!['!'] + host) {
        let i = choose|i: int| 0 <= i < names.len() && names[i] == seq!['!'] + host;
        assert(names[i][0] == '!');
    }
    assert(is_so(k, c) == names.contains(host));
    if v == Ok::<bool, Seq<char>>(true) {
        assert(is_so(ks[0], c) != ks[0].negated);
    }
}

proof fn lemma_last_of_joined(names: Seq<Seq<char>>)
    requires
        names.len() > 0,
        forall|i: int|
            0 <= i < names.len() ==> (#[trigger] names[i]).len() > 0 && is_plain_text(names[i]),
    ensures
        join(names, ","@).len() > 0,
        !is_ws(join(names, ","@).last()),
{
    let last = names[names.len() - 1];
    assert(last.len() > 0 && is_plain_text(last));
    assert(!is_ws(last[last.len() - 1]));
    if names.len() > 1 {
        assert(join(names, ","@) == join(names.drop_last(), ","@) + ","@ + last);
    }
    assert(join(names, ","@).last() == last[last.len() - 1]);
}

/// A word, a space and a text without white space round it are taken apart again.
pub proof fn law_key_and_value(key: Seq<char>, value: Seq<char>)
    requires
        forall|i: int| 0 <= i < key.len() ==> !is_ws(#[trigger] key[i]),
        value.len() > 0,
        !is_ws(value[0]),
        !is_ws(value.last()),
    ensures
        key_value(key + " "@ + value) == Some((key, value)),
{
    reveal_strlit(" ");
    let s = key + " "@ + value;
    lemma_until_ws(key, " "@ + value);
    assert(s =~= key + (" "@ + value));
    let n = key.len() as int;
    let rest = s.skip(n);
    assert(rest =~= " "@ + value);
    assert(rest[0] == ' ');
    assert(rest.skip(1) =~= value);
    law_trimmed_text_stays(value);
    assert(trim_start(value) == value);
    assert(trim(rest) == value);
    assert(s.take(n) =~= key);
}

proof fn lemma_until_ws(key: Seq<char>, rest: Seq<char>)
    requires
        forall|i: int| 0 <= i < key.len() ==> !is_ws(#[trigger] key[i]),
        rest.len() > 0,
        is_ws(rest[0]),
    ensures
        until_ws(key + rest) == key.len(),
    decreases key.len(),
{
    let s = key + rest;
    if key.len() == 0 {
        assert(s =~= rest);
    } else {
        assert(s[0] == key[0]);
        assert(s.skip(1) =~= key.skip(1) + rest);
        lemma_until_ws(key.skip(1), rest);
    }
}

} // verus!
