//! The text form in which a season snapshot is cached: a JSON object
//! `{"season_id":..,"subjects":[..],"last_updated":..}` written with a
//! fixed field order. Strings are written between quotes with `"` and `\`
//! escaped by a backslash; every other character stands as it is. Each
//! ratio is written as the pair `[num,den]`.

use crate::keys::{
    all_digits, append_decimal, decimal, digits_value, is_digit, lemma_decimal_digits,
    lemma_digits_monotone,
};
use crate::metrics::Ratio;
use crate::refresh::SeasonData;
use crate::subject::Subject;
use vstd::prelude::*;
use vstd::string::*;

verus! {

pub open spec fn needs_escape(c: char) -> bool {
    c == '"' || c == '\\'
}

pub open spec fn escape_char(c: char) -> Seq<char> {
    if needs_escape(c) {
        seq!['\\', c]
    } else {
        seq![c]
    }
}

/// The characters of `s` with `"` and `\` escaped.
pub open spec fn escaped(s: Seq<char>) -> Seq<char>
    decreases s.len(),
{
    if s.len() == 0 {
        Seq::empty()
    } else {
        escape_char(s[0]) + escaped(s.skip(1))
    }
}

/// `s` as a JSON string.
pub open spec fn quoted(s: Seq<char>) -> Seq<char> {
    seq!['"'] + escaped(s) + seq!['"']
}

proof fn lemma_escaped_concat(a: Seq<char>, b: Seq<char>)
    ensures
        escaped(a + b) == escaped(a) + escaped(b),
    decreases a.len(),
{
    if a.len() == 0 {
        assert(a + b =~= b);
        assert(escaped(a) + escaped(b) =~= escaped(b));
    } else {
        lemma_escaped_concat(a.skip(1), b);
        assert((a + b).skip(1) =~= a.skip(1) + b);
        assert((a + b)[0] == a[0]);
        assert(escaped(a + b) =~= escaped(a) + escaped(b));
    }
}

proof fn lemma_escaped_plain(s: Seq<char>)
    requires
        forall|i: int| 0 <= i < s.len() ==> !needs_escape(#[trigger] s[i]),
    ensures
        escaped(s) == s,
    decreases s.len(),
{
    if s.len() > 0 {
        lemma_escaped_plain(s.skip(1));
        assert(escaped(s) =~= s);
    }
}

proof fn lemma_escaped_one(c: char)
    ensures
        escaped(seq![c]) == escape_char(c),
{
    assert(seq![c].skip(1) =~= Seq::<char>::empty());
    assert(escaped(seq![c].skip(1)) == Seq::<char>::empty());
    assert(escaped(seq![c]) =~= escape_char(c));
}

/// Writes `s` as a JSON string at the end of `out`.
fn append_quoted(out: &mut String, s: &str)
    ensures
        final(out)@ == old(out)@ + quoted(s@),
{
    proof {
        reveal_strlit("\"");
    }
    out.append("\"");
    let n = s.unicode_len();
    let mut run: usize = 0;
    let mut i: usize = 0;
    while i < n
        invariant
            n == s@.len(),
            run <= i <= n,
            out@ == old(out)@ + seq!['"'] + escaped(s@.take(run as int)),
            forall|j: int| run <= j < i ==> !needs_escape(#[trigger] s@[j]),
        decreases n - i,
    {
        let c = s.get_char(i);
        if c == '"' || c == '\\' {
            let plain = s.substring_char(run, i);
            proof {
                let p = s@.subrange(run as int, i as int);
                assert forall|j: int| 0 <= j < p.len() implies !needs_escape(#[trigger] p[j]) by {
                    assert(p[j] == s@[run + j]);
                }
                lemma_escaped_plain(p);
                lemma_escaped_concat(s@.take(run as int), p);
                assert(s@.take(run as int) + p =~= s@.take(i as int));
                lemma_escaped_concat(s@.take(i as int), seq![c]);
                assert(s@.take(i as int) + seq![c] =~= s@.take(i + 1));
                lemma_escaped_one(c);
            }
            let ghost before = out@;
            out.append(plain);
            if c == '"' {
                proof {
                    reveal_strlit(r#"\""#);
                }
                assert(r#"\""#@ =~= seq!['\\', '"']);
                out.append(r#"\""#);
            } else {
                proof {
                    reveal_strlit(r"\\");
                }
                assert(r"\\"@ =~= seq!['\\', '\\']);
                out.append(r"\\");
            }
            assert(out@ =~= before + s@.subrange(run as int, i as int) + escape_char(c));
            run = i + 1;
            proof {
                assert(out@ =~= old(out)@ + seq!['"'] + escaped(s@.take(run as int)));
            }
        }
        i = i + 1;
    }
    let plain = s.substring_char(run, n);
    proof {
        let p = s@.subrange(run as int, n as int);
        assert forall|j: int| 0 <= j < p.len() implies !needs_escape(#[trigger] p[j]) by {
            assert(p[j] == s@[run + j]);
        }
        lemma_escaped_plain(p);
        lemma_escaped_concat(s@.take(run as int), p);
        assert(s@.take(run as int) + p =~= s@);
    }
    out.append(plain);
    out.append("\"");
    assert(out@ =~= old(out)@ + quoted(s@));
}

/// The field names, each with the punctuation around it.
pub const K_SUBJECT_ID: &'static str = r#"{"subject_id":"#;
pub const K_NAME: &'static str = r#","name":"#;
pub const K_NAME_CN: &'static str = r#","name_cn":"#;
pub const K_IMAGES_GRID: &'static str = r#","images_grid":"#;
pub const K_IMAGES_LARGE: &'static str = r#","images_large":"#;
pub const K_RANK: &'static str = r#","rank":"#;
pub const K_SCORE: &'static str = r#","score":"#;
pub const K_COLLECTION_TOTAL: &'static str = r#","collection_total":"#;
pub const K_AVERAGE_COMMENT: &'static str = r#","average_comment":"#;
pub const K_DROP_RATE: &'static str = r#","drop_rate":"#;
pub const K_AIR_WEEKDAY: &'static str = r#","air_weekday":"#;
pub const K_META_TAGS: &'static str = r#","meta_tags":"#;
pub const K_SEASON_ID: &'static str = r#"{"season_id":"#;
pub const K_SUBJECTS: &'static str = r#","subjects":"#;
pub const K_LAST_UPDATED: &'static str = r#","last_updated":"#;

/// What a subject's record holds, as plain values.
pub struct SubjectView {
    pub subject_id: u32,
    pub name: Seq<char>,
    pub name_cn: Seq<char>,
    pub images_grid: Seq<char>,
    pub images_large: Seq<char>,
    pub rank: u32,
    pub score: Ratio,
    pub collection_total: u64,
    pub average_comment: Ratio,
    pub drop_rate: Ratio,
    pub air_weekday: Seq<char>,
    pub meta_tags: Seq<Seq<char>>,
}

/// What a season snapshot holds, as plain values.
pub struct SnapshotView {
    pub season_id: u32,
    pub subjects: Seq<SubjectView>,
    pub last_updated: u64,
}

pub open spec fn subject_view(s: Subject) -> SubjectView {
    SubjectView {
        subject_id: s.subject_id,
        name: s.name@,
        name_cn: s.name_cn@,
        images_grid: s.images_grid@,
        images_large: s.images_large@,
        rank: s.rank,
        score: s.score,
        collection_total: s.collection_total,
        average_comment: s.average_comment,
        drop_rate: s.drop_rate,
        air_weekday: s.air_weekday@,
        meta_tags: s.meta_tags.deep_view(),
    }
}

pub open spec fn snapshot_view(d: SeasonData) -> SnapshotView {
    SnapshotView {
        season_id: d.season_id,
        subjects: d.subjects@.map_values(|s: Subject| subject_view(s)),
        last_updated: d.last_updated,
    }
}

pub open spec fn ratio_text(r: Ratio) -> Seq<char> {
    seq!['['] + decimal(r.num as nat) + seq![','] + decimal(r.den as nat) + seq![']']
}

/// The rest of a list of strings after its first item, closing bracket
/// included.
pub open spec fn strings_tail(xs: Seq<Seq<char>>) -> Seq<char>
    decreases xs.len(),
{
    if xs.len() == 0 {
        seq![']']
    } else {
        seq![','] + quoted(xs[0]) + strings_tail(xs.skip(1))
    }
}

pub open spec fn strings_text(xs: Seq<Seq<char>>) -> Seq<char> {
    if xs.len() == 0 {
        seq!['[', ']']
    } else {
        seq!['['] + quoted(xs[0]) + strings_tail(xs.skip(1))
    }
}

pub open spec fn subject_names_text(v: SubjectView) -> Seq<char> {
    K_SUBJECT_ID@ + decimal(v.subject_id as nat) + K_NAME@ + quoted(v.name) + K_NAME_CN@ + quoted(
        v.name_cn,
    ) + K_IMAGES_GRID@ + quoted(v.images_grid) + K_IMAGES_LARGE@ + quoted(v.images_large)
}

pub open spec fn subject_numbers_text(v: SubjectView) -> Seq<char> {
    K_RANK@ + decimal(v.rank as nat) + K_SCORE@ + ratio_text(v.score) + K_COLLECTION_TOTAL@
        + decimal(v.collection_total as nat) + K_AVERAGE_COMMENT@ + ratio_text(v.average_comment)
        + K_DROP_RATE@ + ratio_text(v.drop_rate)
}

pub open spec fn subject_tags_text(v: SubjectView) -> Seq<char> {
    K_AIR_WEEKDAY@ + quoted(v.air_weekday) + K_META_TAGS@ + strings_text(v.meta_tags) + seq!['}']
}

#[verifier::opaque]
pub open spec fn subject_text(v: SubjectView) -> Seq<char> {
    subject_names_text(v) + subject_numbers_text(v) + subject_tags_text(v)
}

/// The rest of a list of subjects after its first item, closing bracket
/// included.
pub open spec fn subjects_tail(xs: Seq<SubjectView>) -> Seq<char>
    decreases xs.len(),
{
    if xs.len() == 0 {
        seq![']']
    } else {
        seq![','] + subject_text(xs[0]) + subjects_tail(xs.skip(1))
    }
}

pub open spec fn subjects_text(xs: Seq<SubjectView>) -> Seq<char> {
    if xs.len() == 0 {
        seq!['[', ']']
    } else {
        seq!['['] + subject_text(xs[0]) + subjects_tail(xs.skip(1))
    }
}

/// The cached text of a snapshot.
pub open spec fn snapshot_text(v: SnapshotView) -> Seq<char> {
    K_SEASON_ID@ + decimal(v.season_id as nat) + K_SUBJECTS@ + subjects_text(v.subjects)
        + K_LAST_UPDATED@ + decimal(v.last_updated as nat) + seq!['}']
}

fn append_char_lit(out: &mut String, c: char)
    requires
        c == '[' || c == ']' || c == ',' || c == '}',
    ensures
        final(out)@ == old(out)@ + seq![c],
{
    proof {
        reveal_strlit("[");
        reveal_strlit("]");
        reveal_strlit(",");
        reveal_strlit("}");
    }
    if c == '[' {
        out.append("[");
    } else if c == ']' {
        out.append("]");
    } else if c == ',' {
        out.append(",");
    } else {
        out.append("}");
    }
    assert(final(out)@ =~= old(out)@ + seq![c]);
}

fn append_ratio(out: &mut String, r: Ratio)
    ensures
        final(out)@ == old(out)@ + ratio_text(r),
{
    append_char_lit(out, '[');
    append_decimal(out, r.num);
    append_char_lit(out, ',');
    append_decimal(out, r.den);
    append_char_lit(out, ']');
    assert(final(out)@ =~= old(out)@ + ratio_text(r));
}

fn append_strings(out: &mut String, xs: &Vec<String>)
    ensures
        final(out)@ == old(out)@ + strings_text(xs.deep_view()),
{
    let ghost v = xs.deep_view();
    if xs.len() == 0 {
        append_char_lit(out, '[');
        append_char_lit(out, ']');
        assert(final(out)@ =~= old(out)@ + strings_text(v));
        return;
    }
    append_char_lit(out, '[');
    append_quoted(out, xs[0].as_str());
    let mut k: usize = 1;
    assert(v.skip(1) =~= v.skip(k as int));
    while k < xs.len()
        invariant
            1 <= k <= xs@.len(),
            v == xs.deep_view(),
            v.len() == xs@.len(),
            out@ + strings_tail(v.skip(k as int)) == old(out)@ + strings_text(v),
        decreases xs@.len() - k,
    {
        assert(v.skip(k as int)[0] == xs@[k as int]@);
        assert(v.skip(k as int).skip(1) =~= v.skip(k + 1));
        let ghost before = out@;
        append_char_lit(out, ',');
        append_quoted(out, xs[k].as_str());
        assert(before + strings_tail(v.skip(k as int)) =~= out@ + strings_tail(v.skip(k + 1)));
        k = k + 1;
    }
    assert(v.skip(k as int) =~= Seq::<Seq<char>>::empty());
    append_char_lit(out, ']');
}

fn append_lit(out: &mut String, lit: &str)
    ensures
        final(out)@ == old(out)@ + lit@,
{
    out.append(lit);
}

fn append_subject_names(out: &mut String, s: &Subject)
    ensures
        final(out)@ == old(out)@ + subject_names_text(subject_view(*s)),
{
    append_lit(out, K_SUBJECT_ID);
    append_decimal(out, s.subject_id as u128);
    append_lit(out, K_NAME);
    append_quoted(out, s.name.as_str());
    append_lit(out, K_NAME_CN);
    append_quoted(out, s.name_cn.as_str());
    append_lit(out, K_IMAGES_GRID);
    append_quoted(out, s.images_grid.as_str());
    append_lit(out, K_IMAGES_LARGE);
    append_quoted(out, s.images_large.as_str());
    assert(final(out)@ =~= old(out)@ + subject_names_text(subject_view(*s)));
}

fn append_subject_numbers(out: &mut String, s: &Subject)
    ensures
        final(out)@ == old(out)@ + subject_numbers_text(subject_view(*s)),
{
    append_lit(out, K_RANK);
    append_decimal(out, s.rank as u128);
    append_lit(out, K_SCORE);
    append_ratio(out, s.score);
    append_lit(out, K_COLLECTION_TOTAL);
    append_decimal(out, s.collection_total as u128);
    append_lit(out, K_AVERAGE_COMMENT);
    append_ratio(out, s.average_comment);
    append_lit(out, K_DROP_RATE);
    append_ratio(out, s.drop_rate);
    assert(final(out)@ =~= old(out)@ + subject_numbers_text(subject_view(*s)));
}

fn append_subject_tags(out: &mut String, s: &Subject)
    ensures
        final(out)@ == old(out)@ + subject_tags_text(subject_view(*s)),
{
    append_lit(out, K_AIR_WEEKDAY);
    append_quoted(out, s.air_weekday.as_str());
    append_lit(out, K_META_TAGS);
    append_strings(out, &s.meta_tags);
    append_char_lit(out, '}');
    assert(final(out)@ =~= old(out)@ + subject_tags_text(subject_view(*s)));
}

fn append_subject(out: &mut String, s: &Subject)
    ensures
        final(out)@ == old(out)@ + subject_text(subject_view(*s)),
{
    append_subject_names(out, s);
    append_subject_numbers(out, s);
    append_subject_tags(out, s);
    reveal(subject_text);
    assert(final(out)@ =~= old(out)@ + subject_text(subject_view(*s)));
}

/// The text under which a snapshot is cached.
pub fn encode_snapshot(d: &SeasonData) -> (r: String)
    ensures
        r@ == snapshot_text(snapshot_view(*d)),
{
    let ghost v = snapshot_view(*d).subjects;
    let mut out = String::new();
    append_lit(&mut out, K_SEASON_ID);
    append_decimal(&mut out, d.season_id as u128);
    append_lit(&mut out, K_SUBJECTS);
    let ghost base = out@;
    if d.subjects.len() == 0 {
        append_char_lit(&mut out, '[');
        append_char_lit(&mut out, ']');
        assert(out@ =~= base + subjects_text(v));
    } else {
        append_char_lit(&mut out, '[');
        append_subject(&mut out, &d.subjects[0]);
        let mut k: usize = 1;
        assert(v.skip(1) =~= v.skip(k as int));
        while k < d.subjects.len()
            invariant
                1 <= k <= d.subjects@.len(),
                v == snapshot_view(*d).subjects,
                v.len() == d.subjects@.len(),
                out@ + subjects_tail(v.skip(k as int)) == base + subjects_text(v),
            decreases d.subjects@.len() - k,
        {
            assert(v.skip(k as int)[0] == subject_view(d.subjects@[k as int]));
            assert(v.skip(k as int).skip(1) =~= v.skip(k + 1));
            let ghost before = out@;
            append_char_lit(&mut out, ',');
            append_subject(&mut out, &d.subjects[k]);
            assert(before + subjects_tail(v.skip(k as int)) =~= out@ + subjects_tail(v.skip(k + 1)));
            k = k + 1;
        }
        assert(v.skip(k as int) =~= Seq::<SubjectView>::empty());
        append_char_lit(&mut out, ']');
    }
    append_lit(&mut out, K_LAST_UPDATED);
    append_decimal(&mut out, d.last_updated as u128);
    append_char_lit(&mut out, '}');
    assert(out@ =~= snapshot_text(snapshot_view(*d)));
    out
}

/// `x` stands in `t` from position `pos` on.
pub open spec fn starts(t: Seq<char>, pos: int, x: Seq<char>) -> bool {
    0 <= pos && pos + x.len() <= t.len() && t.subrange(pos, pos + x.len()) == x
}

proof fn lemma_starts_split(t: Seq<char>, pos: int, a: Seq<char>, b: Seq<char>)
    requires
        starts(t, pos, a + b),
    ensures
        starts(t, pos, a),
        starts(t, pos + a.len(), b),
{
    let full = t.subrange(pos, pos + a.len() + b.len());
    assert(full == a + b);
    assert(t.subrange(pos, pos + a.len()) =~= full.subrange(0, a.len() as int));
    assert(full.subrange(0, a.len() as int) =~= a);
    assert(t.subrange(pos + a.len(), pos + a.len() + b.len()) =~= full.subrange(
        a.len() as int,
        full.len() as int,
    ));
    assert(full.subrange(a.len() as int, full.len() as int) =~= b);
}

/// Reads the literal `lit` at `pos`; the position after it.
fn eat(text: &str, n: usize, pos: usize, lit: &str) -> (r: Option<usize>)
    requires
        n == text@.len(),
    ensures
        r matches Some(p) ==> p == pos + lit@.len() <= n,
        starts(text@, pos as int, lit@) ==> r == Some((pos + lit@.len()) as usize),
{
    let m = lit.unicode_len();
    if pos > n || m > n - pos {
        return None;
    }
    let mut j: usize = 0;
    while j < m
        invariant
            m == lit@.len(),
            n == text@.len(),
            pos + m <= n,
            j <= m,
            starts(text@, pos as int, lit@) ==> text@.subrange(pos as int, pos + j) == lit@.take(
                j as int,
            ),
        decreases m - j,
    {
        if text.get_char(pos + j) != lit.get_char(j) {
            proof {
                if starts(text@, pos as int, lit@) {
                    assert(text@.subrange(pos as int, pos + m)[j as int] == text@[pos + j]);
                }
            }
            return None;
        }
        j = j + 1;
    }
    Some(pos + m)
}

fn digit_at(text: &str, i: usize) -> (r: bool)
    requires
        i < text@.len(),
    ensures
        r == is_digit(text@[i as int]),
{
    let c = text.get_char(i);
    '0' <= c && c <= '9'
}

/// Reads a decimal number at `pos`: the number and the position after it.
/// Where `decimal(v)` stands there followed by a non-digit `c`, gives `v`.
fn read_nat(text: &str, n: usize, pos: usize, Ghost(v): Ghost<nat>, Ghost(c): Ghost<char>) -> (r:
    Option<(u128, usize)>)
    requires
        n == text@.len(),
    ensures
        r matches Some((_, p)) ==> pos < p <= n,
        v <= u128::MAX && !is_digit(c) && starts(text@, pos as int, decimal(v).push(c)) ==> r
            == Some((v as u128, (pos + decimal(v).len()) as usize)),
{
    let ghost hyp = v <= u128::MAX && !is_digit(c) && starts(text@, pos as int, decimal(v).push(c));
    let ghost ds = decimal(v);
    proof {
        lemma_decimal_digits(v);
        if hyp {
            lemma_digits_monotone(ds, 0);
        }
    }
    if pos >= n {
        return None;
    }
    let mut i: usize = pos;
    let mut value: u128 = 0;
    while i < n && digit_at(text, i)
        invariant
            n == text@.len(),
            pos <= i <= n,
            ds == decimal(v),
            all_digits(ds),
            digits_value(ds) == v,
            hyp == (v <= u128::MAX && !is_digit(c) && starts(text@, pos as int, ds.push(c))),
            hyp ==> i - pos <= ds.len() && value == digits_value(ds.take(i - pos)),
        decreases n - i,
    {
        let ch = text.get_char(i);
        let d = (ch as u32 - '0' as u32) as u128;
        proof {
            if hyp {
                let sub = text@.subrange(pos as int, pos + ds.len() + 1);
                assert(sub == ds.push(c));
                assert(sub[i - pos] == text@[i as int]);
                assert(i - pos < ds.len());
                assert(ds.take(i - pos + 1).drop_last() =~= ds.take(i - pos));
                lemma_digits_monotone(ds, i - pos + 1);
                assert(value * 10 + d <= u128::MAX);
            }
        }
        if value > (u128::MAX - d) / 10 {
            proof {
                if hyp {
                    assert(value * 10 + d <= u128::MAX ==> value <= (u128::MAX - d) / 10)
                        by (nonlinear_arith);
                }
            }
            return None;
        }
        proof {
            assert(value <= (u128::MAX - d) / 10 ==> value * 10 + d <= u128::MAX)
                by (nonlinear_arith);
        }
        value = value * 10 + d;
        i = i + 1;
    }
    proof {
        if hyp {
            let sub = text@.subrange(pos as int, pos + ds.len() + 1);
            assert(sub == ds.push(c));
            if i - pos < ds.len() {
                assert(sub[i - pos] == text@[i as int]);
            }
        }
    }
    if i == pos {
        return None;
    }
    proof {
        if hyp {
            assert(ds.take(ds.len() as int) =~= ds);
        }
    }
    Some((value, i))
}

proof fn lemma_escaped_step(s: Seq<char>, k: int)
    requires
        0 <= k < s.len(),
    ensures
        escaped(s.skip(k)) == escape_char(s[k]) + escaped(s.skip(k + 1)),
        escaped(s.take(k + 1)) == escaped(s.take(k)) + escape_char(s[k]),
{
    assert(s.skip(k)[0] == s[k]);
    assert(s.skip(k).skip(1) =~= s.skip(k + 1));
    lemma_escaped_concat(s.take(k), seq![s[k]]);
    assert(s.take(k) + seq![s[k]] =~= s.take(k + 1));
    lemma_escaped_one(s[k]);
}

/// Reads a string at `pos` as `append_quoted` writes it: the string and the
/// position after its closing quote. Where `quoted(s)` stands there, gives `s`.
fn read_quoted(text: &str, n: usize, pos: usize, Ghost(s): Ghost<Seq<char>>) -> (r: Option<
    (String, usize),
>)
    requires
        n == text@.len(),
    ensures
        r matches Some((_, p)) ==> pos < p <= n,
        starts(text@, pos as int, quoted(s)) ==> (r matches Some((x, p)) && x@ == s && p == pos
            + quoted(s).len()),
{
    let ghost hyp = starts(text@, pos as int, quoted(s));
    proof {
        if hyp {
            assert(seq!['"'] + escaped(s) + seq!['"'] =~= seq!['"'] + (escaped(s) + seq!['"']));
            lemma_starts_split(text@, pos as int, seq!['"'], escaped(s) + seq!['"']);
            assert(text@.subrange(pos as int, pos + 1)[0] == text@[pos as int]);
            assert(s.skip(0) =~= s);
            assert(s.take(0) =~= Seq::<char>::empty());
            assert(escaped(Seq::<char>::empty()) == Seq::<char>::empty());
        }
    }
    if pos >= n || text.get_char(pos) != '"' {
        return None;
    }
    let mut out = String::new();
    let mut i: usize = pos + 1;
    let mut run: usize = i;
    let ghost mut k: int = 0;
    while i < n
        invariant
            n == text@.len(),
            pos < run <= i <= n,
            hyp == starts(text@, pos as int, quoted(s)),
            hyp ==> {
                &&& 0 <= k <= s.len()
                &&& starts(text@, i as int, escaped(s.skip(k)) + seq!['"'])
                &&& out@ + text@.subrange(run as int, i as int) == s.take(k)
                &&& i == pos + 1 + escaped(s.take(k)).len()
            },
        decreases n - i,
    {
        let c = text.get_char(i);
        proof {
            if hyp {
                let rest = escaped(s.skip(k)) + seq!['"'];
                assert(text@.subrange(i as int, i + rest.len())[0] == c);
                if k < s.len() {
                    lemma_escaped_step(s, k);
                    assert(rest[0] == escape_char(s[k])[0]);
                    if needs_escape(s[k]) {
                        assert(text@.subrange(i as int, i + rest.len())[1] == text@[i + 1]);
                        assert(rest[1] == s[k]);
                    }
                } else {
                    assert(s.skip(k) =~= Seq::<char>::empty());
                    assert(escaped(s.skip(k)) == Seq::<char>::empty());
                }
            }
        }
        if c == '"' {
            let piece = text.substring_char(run, i);
            out.append(piece);
            proof {
                if hyp {
                    assert(s.take(k) =~= s);
                    assert(out@ == s);
                }
            }
            return Some((out, i + 1));
        } else if c == '\\' {
            if i + 1 >= n {
                return None;
            }
            let e = text.get_char(i + 1);
            if e != '"' && e != '\\' {
                return None;
            }
            let piece = text.substring_char(run, i);
            out.append(piece);
            if e == '"' {
                proof {
                    reveal_strlit(r#"""#);
                }
                out.append(r#"""#);
            } else {
                proof {
                    reveal_strlit("\\");
                }
                out.append("\\");
            }
            proof {
                if hyp {
                    assert(out@ =~= s.take(k + 1));
                    let rest = escaped(s.skip(k)) + seq!['"'];
                    assert(rest =~= escape_char(s[k]) + (escaped(s.skip(k + 1)) + seq!['"']));
                    lemma_starts_split(
                        text@,
                        i as int,
                        escape_char(s[k]),
                        escaped(s.skip(k + 1)) + seq!['"'],
                    );
                }
                k = k + 1;
            }
            i = i + 2;
            run = i;
            assert(hyp ==> text@.subrange(run as int, i as int) =~= Seq::<char>::empty());
        } else {
            proof {
                if hyp {
                    let rest = escaped(s.skip(k)) + seq!['"'];
                    assert(rest =~= escape_char(s[k]) + (escaped(s.skip(k + 1)) + seq!['"']));
                    lemma_starts_split(
                        text@,
                        i as int,
                        escape_char(s[k]),
                        escaped(s.skip(k + 1)) + seq!['"'],
                    );
                    assert(text@.subrange(run as int, i + 1) =~= text@.subrange(run as int, i as int).push(c));
                    assert(s.take(k + 1) =~= s.take(k).push(s[k]));
                }
                k = k + 1;
            }
            i = i + 1;
        }
    }
    None
}

proof fn lemma_starts_prefix(t: Seq<char>, pos: int, x: Seq<char>, y: Seq<char>)
    requires
        starts(t, pos, x),
        y.len() <= x.len(),
        x.take(y.len() as int) == y,
    ensures
        starts(t, pos, y),
{
    assert(t.subrange(pos, pos + y.len()) =~= x.take(y.len() as int));
}

/// The character at `i`, where there is one.
fn char_at(text: &str, n: usize, i: usize) -> (r: Option<char>)
    requires
        n == text@.len(),
    ensures
        r == (if i < n {
            Some(text@[i as int])
        } else {
            None
        }),
{
    if i < n {
        Some(text.get_char(i))
    } else {
        None
    }
}

proof fn lemma_starts_char(t: Seq<char>, pos: int, x: Seq<char>)
    requires
        starts(t, pos, x),
        x.len() > 0,
    ensures
        pos < t.len(),
        t[pos] == x[0],
{
    assert(t.subrange(pos, pos + x.len())[0] == t[pos]);
}

fn read_ratio(text: &str, n: usize, pos: usize, Ghost(q): Ghost<Ratio>) -> (r: Option<
    (Ratio, usize),
>)
    requires
        n == text@.len(),
    ensures
        r matches Some((_, p)) ==> pos < p <= n,
        starts(text@, pos as int, ratio_text(q)) ==> r == Some(
            (q, (pos + ratio_text(q).len()) as usize),
        ),
{
    let ghost hyp = starts(text@, pos as int, ratio_text(q));
    let ghost a = decimal(q.num as nat);
    let ghost b = decimal(q.den as nat);
    proof {
        reveal_strlit("[");
        reveal_strlit(",");
        reveal_strlit("]");
        assert("["@ =~= seq!['[']);
        assert(","@ =~= seq![',']);
        assert("]"@ =~= seq![']']);
        if hyp {
            let t = text@;
            assert(ratio_text(q) =~= seq!['['] + (a + (seq![','] + (b + seq![']']))));
            lemma_starts_split(t, pos as int, seq!['['], a + (seq![','] + (b + seq![']'])));
            let p1 = pos + 1;
            lemma_starts_split(t, p1, a, seq![','] + (b + seq![']']));
            assert((a + (seq![','] + (b + seq![']']))).take(a.len() + 1int) =~= a.push(','));
            lemma_starts_prefix(t, p1, a + (seq![','] + (b + seq![']'])), a.push(','));
            let p2 = p1 + a.len();
            lemma_starts_split(t, p2, seq![','], b + seq![']']);
            let p3 = p2 + 1;
            lemma_starts_split(t, p3, b, seq![']']);
            assert(b + seq![']'] =~= b.push(']'));
            lemma_decimal_digits(q.num as nat);
            lemma_decimal_digits(q.den as nat);
        }
    }
    let p1 = match eat(text, n, pos, "[") {
        Some(p) => p,
        None => return None,
    };
    let (num, p2) = match read_nat(text, n, p1, Ghost(q.num as nat), Ghost(',')) {
        Some(x) => x,
        None => return None,
    };
    let p3 = match eat(text, n, p2, ",") {
        Some(p) => p,
        None => return None,
    };
    let (den, p4) = match read_nat(text, n, p3, Ghost(q.den as nat), Ghost(']')) {
        Some(x) => x,
        None => return None,
    };
    let p5 = match eat(text, n, p4, "]") {
        Some(p) => p,
        None => return None,
    };
    if p5 <= pos {
        return None;
    }
    Some((Ratio { num, den }, p5))
}

fn read_strings(text: &str, n: usize, pos: usize, Ghost(xs): Ghost<Seq<Seq<char>>>) -> (r:
    Option<(Vec<String>, usize)>)
    requires
        n == text@.len(),
    ensures
        r matches Some((_, p)) ==> pos < p <= n,
        starts(text@, pos as int, strings_text(xs)) ==> (r matches Some((v, p)) && v.deep_view()
            == xs && p == pos + strings_text(xs).len()),
{
    let ghost hyp = starts(text@, pos as int, strings_text(xs));
    proof {
        reveal_strlit("[");
        assert("["@ =~= seq!['[']);
    }
    let ghost body = if xs.len() == 0 {
        seq![']']
    } else {
        quoted(xs[0]) + strings_tail(xs.skip(1))
    };
    proof {
        if hyp {
            assert(strings_text(xs) =~= seq!['['] + body);
            lemma_starts_split(text@, pos as int, seq!['['], body);
            lemma_starts_char(text@, pos + 1, body);
            if xs.len() > 0 {
                assert(quoted(xs[0])[0] == '"');
                assert(body[0] == '"');
            }
        }
    }
    let p1 = match eat(text, n, pos, "[") {
        Some(p) => p,
        None => return None,
    };
    match char_at(text, n, p1) {
        Some(c) => {
            if c == ']' {
                let empty: Vec<String> = Vec::new();
                proof {
                    if hyp {
                        assert(xs.len() == 0);
                        assert(empty.deep_view() =~= xs);
                    }
                }
                return Some((empty, p1 + 1));
            }
        },
        None => return None,
    }
    let mut out: Vec<String> = Vec::new();
    let mut i: usize = p1;
    proof {
        if hyp {
            assert(out.deep_view() =~= xs.take(0));
        }
    }
    loop
        invariant
            n == text@.len(),
            pos < i <= n,
            hyp == starts(text@, pos as int, strings_text(xs)),
            hyp ==> {
                let k = out@.len() as int;
                &&& k < xs.len()
                &&& starts(text@, i as int, quoted(xs[k]) + strings_tail(xs.skip(k + 1)))
                &&& i + (quoted(xs[k]) + strings_tail(xs.skip(k + 1))).len() == pos + strings_text(
                    xs,
                ).len()
                &&& out.deep_view() == xs.take(k)
            },
        decreases n - i,
    {
        let ghost k = out@.len() as int;
        proof {
            if hyp {
                lemma_starts_split(text@, i as int, quoted(xs[k]), strings_tail(xs.skip(k + 1)));
            }
        }
        let (x, q) = match read_quoted(text, n, i, Ghost(if hyp { xs[k] } else { Seq::empty() })) {
            Some(v) => v,
            None => return None,
        };
        let ghost before = out.deep_view();
        out.push(x);
        proof {
            assert(out.deep_view() =~= before.push(x@));
            if hyp {
                assert(xs.take(k + 1) =~= xs.take(k).push(xs[k]));
                let tail = strings_tail(xs.skip(k + 1));
                lemma_starts_char(text@, q as int, tail);
                if k + 1 < xs.len() {
                    assert(xs.skip(k + 1)[0] == xs[k + 1]);
                    assert(xs.skip(k + 1).skip(1) =~= xs.skip(k + 2));
                    assert(tail =~= seq![','] + (quoted(xs[k + 1]) + strings_tail(xs.skip(k + 2))));
                    lemma_starts_split(
                        text@,
                        q as int,
                        seq![','],
                        quoted(xs[k + 1]) + strings_tail(xs.skip(k + 2)),
                    );
                } else {
                    assert(xs.skip(k + 1) =~= Seq::<Seq<char>>::empty());
                    assert(xs.take(k + 1) =~= xs);
                }
            }
        }
        match char_at(text, n, q) {
            Some(c) => {
                if c == ']' {
                    return Some((out, q + 1));
                } else if c == ',' {
                    i = q + 1;
                } else {
                    return None;
                }
            },
            None => return None,
        }
    }
}

proof fn lemma_number_then(t: Seq<char>, pos: int, d: Seq<char>, rest: Seq<char>)
    requires
        starts(t, pos, d + rest),
        rest.len() > 0,
    ensures
        starts(t, pos, d.push(rest[0])),
        starts(t, pos + d.len(), rest),
{
    lemma_starts_split(t, pos, d, rest);
    assert((d + rest).take(d.len() + 1int) =~= d.push(rest[0]));
    lemma_starts_prefix(t, pos, d + rest, d.push(rest[0]));
}

proof fn lemma_key_firsts()
    ensures
        K_NAME@.len() > 0 && K_NAME@[0] == ',',
        K_SCORE@.len() > 0 && K_SCORE@[0] == ',',
        K_AVERAGE_COMMENT@.len() > 0 && K_AVERAGE_COMMENT@[0] == ',',
        K_SUBJECTS@.len() > 0 && K_SUBJECTS@[0] == ',',
{
    reveal_strlit(r#","name":"#);
    reveal_strlit(r#","score":"#);
    reveal_strlit(r#","average_comment":"#);
    reveal_strlit(r#","subjects":"#);
}

#[verifier::rlimit(40)]
proof fn lemma_names_layout(t: Seq<char>, pos: int, v: SubjectView)
    requires
        starts(t, pos, subject_names_text(v)),
    ensures
        ({
            let d = decimal(v.subject_id as nat);
            let p1 = pos + K_SUBJECT_ID@.len();
            let p3 = p1 + d.len() + K_NAME@.len();
            let p5 = p3 + quoted(v.name).len() + K_NAME_CN@.len();
            let p7 = p5 + quoted(v.name_cn).len() + K_IMAGES_GRID@.len();
            let p9 = p7 + quoted(v.images_grid).len() + K_IMAGES_LARGE@.len();
            &&& starts(t, pos, K_SUBJECT_ID@)
            &&& starts(t, p1, d.push(','))
            &&& starts(t, p1 + d.len(), K_NAME@)
            &&& starts(t, p3, quoted(v.name))
            &&& starts(t, p3 + quoted(v.name).len(), K_NAME_CN@)
            &&& starts(t, p5, quoted(v.name_cn))
            &&& starts(t, p5 + quoted(v.name_cn).len(), K_IMAGES_GRID@)
            &&& starts(t, p7, quoted(v.images_grid))
            &&& starts(t, p7 + quoted(v.images_grid).len(), K_IMAGES_LARGE@)
            &&& starts(t, p9, quoted(v.images_large))
            &&& p9 + quoted(v.images_large).len() == pos + subject_names_text(v).len()
        }),
{
    let d = decimal(v.subject_id as nat);
    let r4 = K_IMAGES_LARGE@ + quoted(v.images_large);
    let r3 = K_IMAGES_GRID@ + (quoted(v.images_grid) + r4);
    let r2 = K_NAME_CN@ + (quoted(v.name_cn) + r3);
    let r1 = K_NAME@ + (quoted(v.name) + r2);
    lemma_key_firsts();
    assert(subject_names_text(v) =~= K_SUBJECT_ID@ + (d + r1));
    lemma_starts_split(t, pos, K_SUBJECT_ID@, d + r1);
    let p1 = pos + K_SUBJECT_ID@.len();
    lemma_number_then(t, p1, d, r1);
    let p2 = p1 + d.len();
    lemma_starts_split(t, p2, K_NAME@, quoted(v.name) + r2);
    let p3 = p2 + K_NAME@.len();
    lemma_starts_split(t, p3, quoted(v.name), r2);
    let p4 = p3 + quoted(v.name).len();
    lemma_starts_split(t, p4, K_NAME_CN@, quoted(v.name_cn) + r3);
    let p5 = p4 + K_NAME_CN@.len();
    lemma_starts_split(t, p5, quoted(v.name_cn), r3);
    let p6 = p5 + quoted(v.name_cn).len();
    lemma_starts_split(t, p6, K_IMAGES_GRID@, quoted(v.images_grid) + r4);
    let p7 = p6 + K_IMAGES_GRID@.len();
    lemma_starts_split(t, p7, quoted(v.images_grid), r4);
    let p8 = p7 + quoted(v.images_grid).len();
    lemma_starts_split(t, p8, K_IMAGES_LARGE@, quoted(v.images_large));
}

fn read_subject_names(text: &str, n: usize, pos: usize, Ghost(v): Ghost<SubjectView>) -> (r:
    Option<((u32, String, String, String, String), usize)>)
    requires
        n == text@.len(),
    ensures
        r matches Some((_, p)) ==> pos < p <= n,
        starts(text@, pos as int, subject_names_text(v)) ==> (r matches Some((x, p)) && x.0
            == v.subject_id && x.1@ == v.name && x.2@ == v.name_cn && x.3@ == v.images_grid
            && x.4@ == v.images_large && p == pos + subject_names_text(v).len()),
{
    proof {
        lemma_decimal_digits(v.subject_id as nat);
        if starts(text@, pos as int, subject_names_text(v)) {
            lemma_names_layout(text@, pos as int, v);
        }
    }
    let p1 = match eat(text, n, pos, K_SUBJECT_ID) {
        Some(p) => p,
        None => return None,
    };
    let (id, p2) = match read_nat(text, n, p1, Ghost(v.subject_id as nat), Ghost(',')) {
        Some(x) => x,
        None => return None,
    };
    if id > 0xffff_ffff {
        return None;
    }
    let p3 = match eat(text, n, p2, K_NAME) {
        Some(p) => p,
        None => return None,
    };
    let (name, p4) = match read_quoted(text, n, p3, Ghost(v.name)) {
        Some(x) => x,
        None => return None,
    };
    let p5 = match eat(text, n, p4, K_NAME_CN) {
        Some(p) => p,
        None => return None,
    };
    let (name_cn, p6) = match read_quoted(text, n, p5, Ghost(v.name_cn)) {
        Some(x) => x,
        None => return None,
    };
    let p7 = match eat(text, n, p6, K_IMAGES_GRID) {
        Some(p) => p,
        None => return None,
    };
    let (grid, p8) = match read_quoted(text, n, p7, Ghost(v.images_grid)) {
        Some(x) => x,
        None => return None,
    };
    let p9 = match eat(text, n, p8, K_IMAGES_LARGE) {
        Some(p) => p,
        None => return None,
    };
    let (large, p10) = match read_quoted(text, n, p9, Ghost(v.images_large)) {
        Some(x) => x,
        None => return None,
    };
    Some(((id as u32, name, name_cn, grid, large), p10))
}

#[verifier::rlimit(40)]
proof fn lemma_numbers_layout(t: Seq<char>, pos: int, v: SubjectView)
    requires
        starts(t, pos, subject_numbers_text(v)),
    ensures
        ({
            let d1 = decimal(v.rank as nat);
            let d2 = decimal(v.collection_total as nat);
            let p1 = pos + K_RANK@.len();
            let p3 = p1 + d1.len() + K_SCORE@.len();
            let p5 = p3 + ratio_text(v.score).len() + K_COLLECTION_TOTAL@.len();
            let p7 = p5 + d2.len() + K_AVERAGE_COMMENT@.len();
            let p9 = p7 + ratio_text(v.average_comment).len() + K_DROP_RATE@.len();
            &&& starts(t, pos, K_RANK@)
            &&& starts(t, p1, d1.push(','))
            &&& starts(t, p1 + d1.len(), K_SCORE@)
            &&& starts(t, p3, ratio_text(v.score))
            &&& starts(t, p3 + ratio_text(v.score).len(), K_COLLECTION_TOTAL@)
            &&& starts(t, p5, d2.push(','))
            &&& starts(t, p5 + d2.len(), K_AVERAGE_COMMENT@)
            &&& starts(t, p7, ratio_text(v.average_comment))
            &&& starts(t, p7 + ratio_text(v.average_comment).len(), K_DROP_RATE@)
            &&& starts(t, p9, ratio_text(v.drop_rate))
            &&& p9 + ratio_text(v.drop_rate).len() == pos + subject_numbers_text(v).len()
        }),
{
    let d1 = decimal(v.rank as nat);
    let d2 = decimal(v.collection_total as nat);
    let r4 = K_DROP_RATE@ + ratio_text(v.drop_rate);
    let r3 = K_AVERAGE_COMMENT@ + (ratio_text(v.average_comment) + r4);
    let r2 = K_COLLECTION_TOTAL@ + (d2 + r3);
    let r1 = K_SCORE@ + (ratio_text(v.score) + r2);
    lemma_key_firsts();
    assert(subject_numbers_text(v) =~= K_RANK@ + (d1 + r1));
    lemma_starts_split(t, pos, K_RANK@, d1 + r1);
    let p1 = pos + K_RANK@.len();
    lemma_number_then(t, p1, d1, r1);
    let p2 = p1 + d1.len();
    lemma_starts_split(t, p2, K_SCORE@, ratio_text(v.score) + r2);
    let p3 = p2 + K_SCORE@.len();
    lemma_starts_split(t, p3, ratio_text(v.score), r2);
    let p4 = p3 + ratio_text(v.score).len();
    lemma_starts_split(t, p4, K_COLLECTION_TOTAL@, d2 + r3);
    let p5 = p4 + K_COLLECTION_TOTAL@.len();
    lemma_number_then(t, p5, d2, r3);
    let p6 = p5 + d2.len();
    lemma_starts_split(t, p6, K_AVERAGE_COMMENT@, ratio_text(v.average_comment) + r4);
    let p7 = p6 + K_AVERAGE_COMMENT@.len();
    lemma_starts_split(t, p7, ratio_text(v.average_comment), r4);
    let p8 = p7 + ratio_text(v.average_comment).len();
    lemma_starts_split(t, p8, K_DROP_RATE@, ratio_text(v.drop_rate));
}

fn read_subject_numbers(text: &str, n: usize, pos: usize, Ghost(v): Ghost<SubjectView>) -> (r:
    Option<((u32, Ratio, u64, Ratio, Ratio), usize)>)
    requires
        n == text@.len(),
    ensures
        r matches Some((_, p)) ==> pos < p <= n,
        starts(text@, pos as int, subject_numbers_text(v)) ==> (r matches Some((x, p)) && x.0
            == v.rank && x.1 == v.score && x.2 == v.collection_total && x.3 == v.average_comment
            && x.4 == v.drop_rate && p == pos + subject_numbers_text(v).len()),
{
    proof {
        lemma_decimal_digits(v.rank as nat);
        lemma_decimal_digits(v.collection_total as nat);
        if starts(text@, pos as int, subject_numbers_text(v)) {
            lemma_numbers_layout(text@, pos as int, v);
        }
    }
    let p1 = match eat(text, n, pos, K_RANK) {
        Some(p) => p,
        None => return None,
    };
    let (rank, p2) = match read_nat(text, n, p1, Ghost(v.rank as nat), Ghost(',')) {
        Some(x) => x,
        None => return None,
    };
    if rank > 0xffff_ffff {
        return None;
    }
    let p3 = match eat(text, n, p2, K_SCORE) {
        Some(p) => p,
        None => return None,
    };
    let (score, p4) = match read_ratio(text, n, p3, Ghost(v.score)) {
        Some(x) => x,
        None => return None,
    };
    let p5 = match eat(text, n, p4, K_COLLECTION_TOTAL) {
        Some(p) => p,
        None => return None,
    };
    let (total, p6) = match read_nat(text, n, p5, Ghost(v.collection_total as nat), Ghost(',')) {
        Some(x) => x,
        None => return None,
    };
    if total > 0xffff_ffff_ffff_ffff {
        return None;
    }
    let p7 = match eat(text, n, p6, K_AVERAGE_COMMENT) {
        Some(p) => p,
        None => return None,
    };
    let (average, p8) = match read_ratio(text, n, p7, Ghost(v.average_comment)) {
        Some(x) => x,
        None => return None,
    };
    let p9 = match eat(text, n, p8, K_DROP_RATE) {
        Some(p) => p,
        None => return None,
    };
    let (drop, p10) = match read_ratio(text, n, p9, Ghost(v.drop_rate)) {
        Some(x) => x,
        None => return None,
    };
    Some(((rank as u32, score, total as u64, average, drop), p10))
}

proof fn lemma_tags_layout(t: Seq<char>, pos: int, v: SubjectView)
    requires
        starts(t, pos, subject_tags_text(v)),
    ensures
        ({
            let p1 = pos + K_AIR_WEEKDAY@.len();
            let p3 = p1 + quoted(v.air_weekday).len() + K_META_TAGS@.len();
            &&& starts(t, pos, K_AIR_WEEKDAY@)
            &&& starts(t, p1, quoted(v.air_weekday))
            &&& starts(t, p1 + quoted(v.air_weekday).len(), K_META_TAGS@)
            &&& starts(t, p3, strings_text(v.meta_tags))
            &&& starts(t, p3 + strings_text(v.meta_tags).len(), seq!['}'])
            &&& p3 + strings_text(v.meta_tags).len() + 1 == pos + subject_tags_text(v).len()
        }),
{
    let r2 = strings_text(v.meta_tags) + seq!['}'];
    let r1 = K_META_TAGS@ + r2;
    assert(subject_tags_text(v) =~= K_AIR_WEEKDAY@ + (quoted(v.air_weekday) + r1));
    lemma_starts_split(t, pos, K_AIR_WEEKDAY@, quoted(v.air_weekday) + r1);
    let p1 = pos + K_AIR_WEEKDAY@.len();
    lemma_starts_split(t, p1, quoted(v.air_weekday), r1);
    let p2 = p1 + quoted(v.air_weekday).len();
    lemma_starts_split(t, p2, K_META_TAGS@, r2);
    let p3 = p2 + K_META_TAGS@.len();
    lemma_starts_split(t, p3, strings_text(v.meta_tags), seq!['}']);
}

fn read_subject_tags(text: &str, n: usize, pos: usize, Ghost(v): Ghost<SubjectView>) -> (r:
    Option<((String, Vec<String>), usize)>)
    requires
        n == text@.len(),
    ensures
        r matches Some((_, p)) ==> pos < p <= n,
        starts(text@, pos as int, subject_tags_text(v)) ==> (r matches Some((x, p)) && x.0@
            == v.air_weekday && x.1.deep_view() == v.meta_tags && p == pos + subject_tags_text(
            v,
        ).len()),
{
    proof {
        reveal_strlit("}");
        assert("}"@ =~= seq!['}']);
        if starts(text@, pos as int, subject_tags_text(v)) {
            lemma_tags_layout(text@, pos as int, v);
        }
    }
    let p1 = match eat(text, n, pos, K_AIR_WEEKDAY) {
        Some(p) => p,
        None => return None,
    };
    let (weekday, p2) = match read_quoted(text, n, p1, Ghost(v.air_weekday)) {
        Some(x) => x,
        None => return None,
    };
    let p3 = match eat(text, n, p2, K_META_TAGS) {
        Some(p) => p,
        None => return None,
    };
    let (tags, p4) = match read_strings(text, n, p3, Ghost(v.meta_tags)) {
        Some(x) => x,
        None => return None,
    };
    let p5 = match eat(text, n, p4, "}") {
        Some(p) => p,
        None => return None,
    };
    Some(((weekday, tags), p5))
}

fn read_subject(text: &str, n: usize, pos: usize, Ghost(v): Ghost<SubjectView>) -> (r: Option<
    (Subject, usize),
>)
    requires
        n == text@.len(),
    ensures
        r matches Some((_, p)) ==> pos < p <= n,
        starts(text@, pos as int, subject_text(v)) ==> (r matches Some((x, p)) && subject_view(x)
            == v && p == pos + subject_text(v).len()),
{
    proof {
        reveal(subject_text);
        if starts(text@, pos as int, subject_text(v)) {
            let a = subject_names_text(v);
            let b = subject_numbers_text(v);
            let c = subject_tags_text(v);
            assert(subject_text(v) =~= a + (b + c));
            lemma_starts_split(text@, pos as int, a, b + c);
            lemma_starts_split(text@, pos + a.len(), b, c);
        }
    }
    let (names, p1) = match read_subject_names(text, n, pos, Ghost(v)) {
        Some(x) => x,
        None => return None,
    };
    let (numbers, p2) = match read_subject_numbers(text, n, p1, Ghost(v)) {
        Some(x) => x,
        None => return None,
    };
    let (tags, p3) = match read_subject_tags(text, n, p2, Ghost(v)) {
        Some(x) => x,
        None => return None,
    };
    let (subject_id, name, name_cn, images_grid, images_large) = names;
    let (rank, score, collection_total, average_comment, drop_rate) = numbers;
    let (air_weekday, meta_tags) = tags;
    let x = Subject {
        subject_id,
        name,
        name_cn,
        images_grid,
        images_large,
        rank,
        score,
        collection_total,
        average_comment,
        drop_rate,
        air_weekday,
        meta_tags,
    };
    Some((x, p3))
}

pub open spec fn subject_views(xs: Seq<Subject>) -> Seq<SubjectView> {
    xs.map_values(|s: Subject| subject_view(s))
}

fn read_subjects(text: &str, n: usize, pos: usize, Ghost(xs): Ghost<Seq<SubjectView>>) -> (r:
    Option<(Vec<Subject>, usize)>)
    requires
        n == text@.len(),
    ensures
        r matches Some((_, p)) ==> pos < p <= n,
        starts(text@, pos as int, subjects_text(xs)) ==> (r matches Some((v, p)) && subject_views(
            v@,
        ) == xs && p == pos + subjects_text(xs).len()),
{
    let ghost hyp = starts(text@, pos as int, subjects_text(xs));
    proof {
        reveal_strlit("[");
        assert("["@ =~= seq!['[']);
    }
    let ghost body = if xs.len() == 0 {
        seq![']']
    } else {
        subject_text(xs[0]) + subjects_tail(xs.skip(1))
    };
    proof {
        if hyp {
            assert(subjects_text(xs) =~= seq!['['] + body);
            lemma_starts_split(text@, pos as int, seq!['['], body);
            lemma_starts_char(text@, pos + 1, body);
            if xs.len() > 0 {
                assert(subject_text(xs[0]).len() > 0 && subject_text(xs[0])[0] == '{') by {
                    reveal(subject_text);
                    reveal_strlit(r#"{"subject_id":"#);
                    assert(subject_text(xs[0])[0] == K_SUBJECT_ID@[0]);
                }
                assert(body[0] == '{');
            }
        }
    }
    let p1 = match eat(text, n, pos, "[") {
        Some(p) => p,
        None => return None,
    };
    match char_at(text, n, p1) {
        Some(c) => {
            if c == ']' {
                let empty: Vec<Subject> = Vec::new();
                proof {
                    if hyp {
                        assert(xs.len() == 0);
                        assert(subject_views(empty@) =~= xs);
                    }
                }
                return Some((empty, p1 + 1));
            }
        },
        None => return None,
    }
    let mut out: Vec<Subject> = Vec::new();
    let mut i: usize = p1;
    proof {
        if hyp {
            assert(subject_views(out@) =~= xs.take(0));
        }
    }
    loop
        invariant
            n == text@.len(),
            pos < i <= n,
            hyp == starts(text@, pos as int, subjects_text(xs)),
            hyp ==> {
                let k = out@.len() as int;
                &&& k < xs.len()
                &&& starts(text@, i as int, subject_text(xs[k]) + subjects_tail(xs.skip(k + 1)))
                &&& i + (subject_text(xs[k]) + subjects_tail(xs.skip(k + 1))).len() == pos
                    + subjects_text(xs).len()
                &&& subject_views(out@) == xs.take(k)
            },
        decreases n - i,
    {
        let ghost k = out@.len() as int;
        proof {
            if hyp {
                lemma_starts_split(
                    text@,
                    i as int,
                    subject_text(xs[k]),
                    subjects_tail(xs.skip(k + 1)),
                );
            }
        }
        let ghost target = if hyp {
            xs[k]
        } else {
            arbitrary()
        };
        let (x, q) = match read_subject(text, n, i, Ghost(target)) {
            Some(v) => v,
            None => return None,
        };
        let ghost before = out@;
        out.push(x);
        proof {
            assert(subject_views(out@) =~= subject_views(before).push(subject_view(x)));
            if hyp {
                assert(xs.take(k + 1) =~= xs.take(k).push(xs[k]));
                let tail = subjects_tail(xs.skip(k + 1));
                lemma_starts_char(text@, q as int, tail);
                if k + 1 < xs.len() {
                    assert(xs.skip(k + 1)[0] == xs[k + 1]);
                    assert(xs.skip(k + 1).skip(1) =~= xs.skip(k + 2));
                    assert(tail =~= seq![','] + (subject_text(xs[k + 1]) + subjects_tail(
                        xs.skip(k + 2),
                    )));
                    lemma_starts_split(
                        text@,
                        q as int,
                        seq![','],
                        subject_text(xs[k + 1]) + subjects_tail(xs.skip(k + 2)),
                    );
                } else {
                    assert(xs.skip(k + 1) =~= Seq::<SubjectView>::empty());
                    assert(xs.take(k + 1) =~= xs);
                }
            }
        }
        match char_at(text, n, q) {
            Some(c) => {
                if c == ']' {
                    return Some((out, q + 1));
                } else if c == ',' {
                    i = q + 1;
                } else {
                    return None;
                }
            },
            None => return None,
        }
    }
}

#[verifier::rlimit(40)]
proof fn lemma_snapshot_layout(t: Seq<char>, v: SnapshotView)
    requires
        t == snapshot_text(v),
    ensures
        ({
            let d1 = decimal(v.season_id as nat);
            let d2 = decimal(v.last_updated as nat);
            let p1 = K_SEASON_ID@.len() as int;
            let p3 = p1 + d1.len() + K_SUBJECTS@.len();
            let p5 = p3 + subjects_text(v.subjects).len() + K_LAST_UPDATED@.len();
            &&& starts(t, 0, K_SEASON_ID@)
            &&& starts(t, p1, d1.push(','))
            &&& starts(t, p1 + d1.len(), K_SUBJECTS@)
            &&& starts(t, p3, subjects_text(v.subjects))
            &&& starts(t, p3 + subjects_text(v.subjects).len(), K_LAST_UPDATED@)
            &&& starts(t, p5, d2.push('}'))
            &&& starts(t, p5 + d2.len(), seq!['}'])
            &&& p5 + d2.len() + 1 == t.len()
        }),
{
    let d1 = decimal(v.season_id as nat);
    let d2 = decimal(v.last_updated as nat);
    lemma_key_firsts();
    let r3 = K_LAST_UPDATED@ + (d2 + seq!['}']);
    let r2 = subjects_text(v.subjects) + r3;
    let r1 = K_SUBJECTS@ + r2;
    assert(t.subrange(0, t.len() as int) =~= t);
    assert(snapshot_text(v) =~= K_SEASON_ID@ + (d1 + r1));
    lemma_starts_split(t, 0, K_SEASON_ID@, d1 + r1);
    let p1 = K_SEASON_ID@.len() as int;
    lemma_number_then(t, p1, d1, r1);
    let p2 = p1 + d1.len();
    lemma_starts_split(t, p2, K_SUBJECTS@, r2);
    let p3 = p2 + K_SUBJECTS@.len();
    lemma_starts_split(t, p3, subjects_text(v.subjects), r3);
    let p4 = p3 + subjects_text(v.subjects).len();
    lemma_starts_split(t, p4, K_LAST_UPDATED@, d2 + seq!['}']);
    assert(d2 + seq!['}'] =~= d2.push('}'));
    lemma_starts_split(t, p4 + K_LAST_UPDATED@.len(), d2, seq!['}']);
}

/// The snapshot whose cached text is `text`, or `None` where `text` is not
/// the cached text of any snapshot. Every text that `encode_snapshot` writes
/// is read back into the snapshot it was written from, equal in every field.
pub fn decode_snapshot(text: &str) -> (r: Option<SeasonData>)
    ensures
        r matches Some(d) ==> text@ == snapshot_text(snapshot_view(d)),
        forall|v: SnapshotView|
            text@ == snapshot_text(v) ==> (r matches Some(d) && snapshot_view(d) == v),
{
    let ghost hyp = exists|v: SnapshotView| text@ == snapshot_text(v);
    let ghost v = if hyp {
        choose|v: SnapshotView| text@ == snapshot_text(v)
    } else {
        arbitrary()
    };
    let n = text.unicode_len();
    proof {
        lemma_decimal_digits(v.season_id as nat);
        lemma_decimal_digits(v.last_updated as nat);
        reveal_strlit("}");
        assert("}"@ =~= seq!['}']);
        if hyp {
            lemma_snapshot_layout(text@, v);
        }
    }
    let p1 = match eat(text, n, 0, K_SEASON_ID) {
        Some(p) => p,
        None => return None,
    };
    let (season_id, p2) = match read_nat(text, n, p1, Ghost(v.season_id as nat), Ghost(',')) {
        Some(x) => x,
        None => return None,
    };
    if season_id > 0xffff_ffff {
        return None;
    }
    let p3 = match eat(text, n, p2, K_SUBJECTS) {
        Some(p) => p,
        None => return None,
    };
    let (subjects, p4) = match read_subjects(text, n, p3, Ghost(v.subjects)) {
        Some(x) => x,
        None => return None,
    };
    let p5 = match eat(text, n, p4, K_LAST_UPDATED) {
        Some(p) => p,
        None => return None,
    };
    let (last_updated, p6) = match read_nat(text, n, p5, Ghost(v.last_updated as nat), Ghost('}')) {
        Some(x) => x,
        None => return None,
    };
    if last_updated > 0xffff_ffff_ffff_ffff {
        return None;
    }
    let p7 = match eat(text, n, p6, "}") {
        Some(p) => p,
        None => return None,
    };
    if p7 != n {
        return None;
    }
    let d = SeasonData { season_id: season_id as u32, subjects, last_updated: last_updated as u64 };
    proof {
        if hyp {
            assert(snapshot_view(d).subjects == subject_views(d.subjects@));
            assert(snapshot_view(d) == v);
            assert forall|w: SnapshotView| text@ == snapshot_text(w) implies snapshot_view(d)
                == w by {
                lemma_snapshot_text_injective(v, w);
            }
        }
    }
    // Only the exact text that the snapshot is written as is accepted.
    let written = encode_snapshot(&d);
    let given = String::from_str(text);
    if written == given {
        Some(d)
    } else {
        None
    }
}

proof fn lemma_number_unique(t: Seq<char>, p: int, a: nat, c1: char, b: nat, c2: char)
    requires
        starts(t, p, decimal(a).push(c1)),
        starts(t, p, decimal(b).push(c2)),
        !is_digit(c1),
        !is_digit(c2),
    ensures
        a == b,
{
    let da = decimal(a);
    let db = decimal(b);
    lemma_decimal_digits(a);
    lemma_decimal_digits(b);
    let sa = t.subrange(p, p + da.len() + 1);
    let sb = t.subrange(p, p + db.len() + 1);
    if da.len() < db.len() {
        assert(sa[da.len() as int] == t[p + da.len()]);
        assert(sb[da.len() as int] == t[p + da.len()]);
        assert(is_digit(db[da.len() as int]));
    } else if db.len() < da.len() {
        assert(sa[db.len() as int] == t[p + db.len()]);
        assert(sb[db.len() as int] == t[p + db.len()]);
        assert(is_digit(da[db.len() as int]));
    } else {
        assert forall|i: int| 0 <= i < da.len() implies da[i] == db[i] by {
            assert(sa[i] == t[p + i]);
            assert(sb[i] == t[p + i]);
        }
        assert(da =~= db);
    }
}

proof fn lemma_escaped_unique(t: Seq<char>, i: int, a: Seq<char>, b: Seq<char>)
    requires
        starts(t, i, escaped(a) + seq!['"']),
        starts(t, i, escaped(b) + seq!['"']),
    ensures
        a == b,
    decreases a.len(),
{
    let ra = escaped(a) + seq!['"'];
    let rb = escaped(b) + seq!['"'];
    lemma_starts_char(t, i, ra);
    lemma_starts_char(t, i, rb);
    if a.len() == 0 {
        assert(escaped(a) == Seq::<char>::empty());
        if b.len() > 0 {
            lemma_escaped_step(b, 0);
            assert(b.skip(0) =~= b);
        }
        assert(b =~= a);
    } else if b.len() == 0 {
        assert(escaped(b) == Seq::<char>::empty());
        lemma_escaped_step(a, 0);
        assert(a.skip(0) =~= a);
    } else {
        lemma_escaped_step(a, 0);
        lemma_escaped_step(b, 0);
        assert(a.skip(0) =~= a);
        assert(b.skip(0) =~= b);
        let ea = escape_char(a[0]);
        let eb = escape_char(b[0]);
        assert(ra =~= ea + (escaped(a.skip(1)) + seq!['"']));
        assert(rb =~= eb + (escaped(b.skip(1)) + seq!['"']));
        lemma_starts_split(t, i, ea, escaped(a.skip(1)) + seq!['"']);
        lemma_starts_split(t, i, eb, escaped(b.skip(1)) + seq!['"']);
        lemma_starts_char(t, i, ea);
        lemma_starts_char(t, i, eb);
        if needs_escape(a[0]) || needs_escape(b[0]) {
            assert(needs_escape(a[0]) && needs_escape(b[0]));
            assert(t.subrange(i, i + 2)[1] == t[i + 1]);
            assert(a[0] == b[0]);
        } else {
            assert(a[0] == b[0]);
        }
        lemma_escaped_unique(t, i + ea.len(), a.skip(1), b.skip(1));
        assert(a =~= seq![a[0]] + a.skip(1));
        assert(b =~= seq![b[0]] + b.skip(1));
    }
}

proof fn lemma_quoted_unique(t: Seq<char>, p: int, a: Seq<char>, b: Seq<char>)
    requires
        starts(t, p, quoted(a)),
        starts(t, p, quoted(b)),
    ensures
        a == b,
{
    assert(quoted(a) =~= seq!['"'] + (escaped(a) + seq!['"']));
    assert(quoted(b) =~= seq!['"'] + (escaped(b) + seq!['"']));
    lemma_starts_split(t, p, seq!['"'], escaped(a) + seq!['"']);
    lemma_starts_split(t, p, seq!['"'], escaped(b) + seq!['"']);
    lemma_escaped_unique(t, p + 1, a, b);
}

proof fn lemma_ratio_unique(t: Seq<char>, p: int, a: Ratio, b: Ratio)
    requires
        starts(t, p, ratio_text(a)),
        starts(t, p, ratio_text(b)),
    ensures
        a == b,
{
    let an = decimal(a.num as nat);
    let ad = decimal(a.den as nat);
    let bn = decimal(b.num as nat);
    let bd = decimal(b.den as nat);
    assert(ratio_text(a) =~= seq!['['] + (an + (seq![','] + (ad + seq![']']))));
    assert(ratio_text(b) =~= seq!['['] + (bn + (seq![','] + (bd + seq![']']))));
    lemma_starts_split(t, p, seq!['['], an + (seq![','] + (ad + seq![']'])));
    lemma_starts_split(t, p, seq!['['], bn + (seq![','] + (bd + seq![']'])));
    lemma_number_then(t, p + 1, an, seq![','] + (ad + seq![']']));
    lemma_number_then(t, p + 1, bn, seq![','] + (bd + seq![']']));
    lemma_number_unique(t, p + 1, a.num as nat, ',', b.num as nat, ',');
    lemma_starts_split(t, p + 1 + an.len(), seq![','], ad + seq![']']);
    lemma_starts_split(t, p + 1 + bn.len(), seq![','], bd + seq![']']);
    assert(ad + seq![']'] =~= ad.push(']'));
    assert(bd + seq![']'] =~= bd.push(']'));
    lemma_number_unique(t, p + 2 + an.len(), a.den as nat, ']', b.den as nat, ']');
}

proof fn lemma_strings_tail_unique(t: Seq<char>, i: int, xs: Seq<Seq<char>>, ys: Seq<Seq<char>>)
    requires
        starts(t, i, strings_tail(xs)),
        starts(t, i, strings_tail(ys)),
    ensures
        xs == ys,
    decreases xs.len(),
{
    lemma_starts_char(t, i, strings_tail(xs));
    lemma_starts_char(t, i, strings_tail(ys));
    if xs.len() > 0 && ys.len() > 0 {
        let rx = quoted(xs[0]) + strings_tail(xs.skip(1));
        let ry = quoted(ys[0]) + strings_tail(ys.skip(1));
        assert(strings_tail(xs) =~= seq![','] + rx);
        assert(strings_tail(ys) =~= seq![','] + ry);
        lemma_starts_split(t, i, seq![','], rx);
        lemma_starts_split(t, i, seq![','], ry);
        lemma_starts_split(t, i + 1, quoted(xs[0]), strings_tail(xs.skip(1)));
        lemma_starts_split(t, i + 1, quoted(ys[0]), strings_tail(ys.skip(1)));
        lemma_quoted_unique(t, i + 1, xs[0], ys[0]);
        lemma_strings_tail_unique(t, i + 1 + quoted(xs[0]).len(), xs.skip(1), ys.skip(1));
        assert(xs =~= seq![xs[0]] + xs.skip(1));
        assert(ys =~= seq![ys[0]] + ys.skip(1));
    } else if xs.len() == 0 && ys.len() == 0 {
        assert(xs =~= ys);
    }
}

proof fn lemma_strings_unique(t: Seq<char>, p: int, xs: Seq<Seq<char>>, ys: Seq<Seq<char>>)
    requires
        starts(t, p, strings_text(xs)),
        starts(t, p, strings_text(ys)),
    ensures
        xs == ys,
{
    let bx = if xs.len() == 0 {
        seq![']']
    } else {
        quoted(xs[0]) + strings_tail(xs.skip(1))
    };
    let by = if ys.len() == 0 {
        seq![']']
    } else {
        quoted(ys[0]) + strings_tail(ys.skip(1))
    };
    assert(strings_text(xs) =~= seq!['['] + bx);
    assert(strings_text(ys) =~= seq!['['] + by);
    lemma_starts_split(t, p, seq!['['], bx);
    lemma_starts_split(t, p, seq!['['], by);
    lemma_starts_char(t, p + 1, bx);
    lemma_starts_char(t, p + 1, by);
    if xs.len() > 0 && ys.len() > 0 {
        lemma_starts_split(t, p + 1, quoted(xs[0]), strings_tail(xs.skip(1)));
        lemma_starts_split(t, p + 1, quoted(ys[0]), strings_tail(ys.skip(1)));
        lemma_quoted_unique(t, p + 1, xs[0], ys[0]);
        lemma_strings_tail_unique(t, p + 1 + quoted(xs[0]).len(), xs.skip(1), ys.skip(1));
        assert(xs =~= seq![xs[0]] + xs.skip(1));
        assert(ys =~= seq![ys[0]] + ys.skip(1));
    } else if xs.len() == 0 && ys.len() == 0 {
        assert(xs =~= ys);
    }
}

proof fn lemma_subject_unique(t: Seq<char>, p: int, v: SubjectView, w: SubjectView)
    requires
        starts(t, p, subject_text(v)),
        starts(t, p, subject_text(w)),
    ensures
        v == w,
{
    reveal(subject_text);
    lemma_key_firsts();
    let (av, bv, cv) = (subject_names_text(v), subject_numbers_text(v), subject_tags_text(v));
    let (aw, bw, cw) = (subject_names_text(w), subject_numbers_text(w), subject_tags_text(w));
    assert(subject_text(v) =~= av + (bv + cv));
    assert(subject_text(w) =~= aw + (bw + cw));
    lemma_starts_split(t, p, av, bv + cv);
    lemma_starts_split(t, p, aw, bw + cw);
    lemma_names_layout(t, p, v);
    lemma_names_layout(t, p, w);
    let p1 = p + K_SUBJECT_ID@.len();
    lemma_number_unique(t, p1, v.subject_id as nat, ',', w.subject_id as nat, ',');
    let p3 = p1 + decimal(v.subject_id as nat).len() + K_NAME@.len();
    lemma_quoted_unique(t, p3, v.name, w.name);
    let p5 = p3 + quoted(v.name).len() + K_NAME_CN@.len();
    lemma_quoted_unique(t, p5, v.name_cn, w.name_cn);
    let p7 = p5 + quoted(v.name_cn).len() + K_IMAGES_GRID@.len();
    lemma_quoted_unique(t, p7, v.images_grid, w.images_grid);
    let p9 = p7 + quoted(v.images_grid).len() + K_IMAGES_LARGE@.len();
    lemma_quoted_unique(t, p9, v.images_large, w.images_large);
    let q = p + av.len();
    assert(av.len() == aw.len());
    lemma_starts_split(t, q, bv, cv);
    lemma_starts_split(t, q, bw, cw);
    lemma_numbers_layout(t, q, v);
    lemma_numbers_layout(t, q, w);
    let q1 = q + K_RANK@.len();
    lemma_number_unique(t, q1, v.rank as nat, ',', w.rank as nat, ',');
    let q3 = q1 + decimal(v.rank as nat).len() + K_SCORE@.len();
    lemma_ratio_unique(t, q3, v.score, w.score);
    let q5 = q3 + ratio_text(v.score).len() + K_COLLECTION_TOTAL@.len();
    lemma_number_unique(t, q5, v.collection_total as nat, ',', w.collection_total as nat, ',');
    let q7 = q5 + decimal(v.collection_total as nat).len() + K_AVERAGE_COMMENT@.len();
    lemma_ratio_unique(t, q7, v.average_comment, w.average_comment);
    let q9 = q7 + ratio_text(v.average_comment).len() + K_DROP_RATE@.len();
    lemma_ratio_unique(t, q9, v.drop_rate, w.drop_rate);
    let r = q + bv.len();
    assert(bv.len() == bw.len());
    lemma_tags_layout(t, r, v);
    lemma_tags_layout(t, r, w);
    let r1 = r + K_AIR_WEEKDAY@.len();
    lemma_quoted_unique(t, r1, v.air_weekday, w.air_weekday);
    let r3 = r1 + quoted(v.air_weekday).len() + K_META_TAGS@.len();
    lemma_strings_unique(t, r3, v.meta_tags, w.meta_tags);
}

proof fn lemma_subjects_tail_unique(t: Seq<char>, i: int, xs: Seq<SubjectView>, ys: Seq<SubjectView>)
    requires
        starts(t, i, subjects_tail(xs)),
        starts(t, i, subjects_tail(ys)),
    ensures
        xs == ys,
    decreases xs.len(),
{
    lemma_starts_char(t, i, subjects_tail(xs));
    lemma_starts_char(t, i, subjects_tail(ys));
    if xs.len() > 0 && ys.len() > 0 {
        let rx = subject_text(xs[0]) + subjects_tail(xs.skip(1));
        let ry = subject_text(ys[0]) + subjects_tail(ys.skip(1));
        assert(subjects_tail(xs) =~= seq![','] + rx);
        assert(subjects_tail(ys) =~= seq![','] + ry);
        lemma_starts_split(t, i, seq![','], rx);
        lemma_starts_split(t, i, seq![','], ry);
        lemma_starts_split(t, i + 1, subject_text(xs[0]), subjects_tail(xs.skip(1)));
        lemma_starts_split(t, i + 1, subject_text(ys[0]), subjects_tail(ys.skip(1)));
        lemma_subject_unique(t, i + 1, xs[0], ys[0]);
        lemma_subjects_tail_unique(t, i + 1 + subject_text(xs[0]).len(), xs.skip(1), ys.skip(1));
        assert(xs =~= seq![xs[0]] + xs.skip(1));
        assert(ys =~= seq![ys[0]] + ys.skip(1));
    } else if xs.len() == 0 && ys.len() == 0 {
        assert(xs =~= ys);
    }
}

proof fn lemma_subjects_unique(t: Seq<char>, p: int, xs: Seq<SubjectView>, ys: Seq<SubjectView>)
    requires
        starts(t, p, subjects_text(xs)),
        starts(t, p, subjects_text(ys)),
    ensures
        xs == ys,
{
    let bx = if xs.len() == 0 {
        seq![']']
    } else {
        subject_text(xs[0]) + subjects_tail(xs.skip(1))
    };
    let by = if ys.len() == 0 {
        seq![']']
    } else {
        subject_text(ys[0]) + subjects_tail(ys.skip(1))
    };
    assert(subjects_text(xs) =~= seq!['['] + bx);
    assert(subjects_text(ys) =~= seq!['['] + by);
    lemma_starts_split(t, p, seq!['['], bx);
    lemma_starts_split(t, p, seq!['['], by);
    lemma_starts_char(t, p + 1, bx);
    lemma_starts_char(t, p + 1, by);
    if xs.len() > 0 {
        assert(subject_text(xs[0]).len() > 0 && subject_text(xs[0])[0] == '{') by {
            reveal(subject_text);
            reveal_strlit(r#"{"subject_id":"#);
            assert(subject_text(xs[0])[0] == K_SUBJECT_ID@[0]);
        }
    }
    if ys.len() > 0 {
        assert(subject_text(ys[0]).len() > 0 && subject_text(ys[0])[0] == '{') by {
            reveal(subject_text);
            reveal_strlit(r#"{"subject_id":"#);
            assert(subject_text(ys[0])[0] == K_SUBJECT_ID@[0]);
        }
    }
    if xs.len() > 0 && ys.len() > 0 {
        lemma_starts_split(t, p + 1, subject_text(xs[0]), subjects_tail(xs.skip(1)));
        lemma_starts_split(t, p + 1, subject_text(ys[0]), subjects_tail(ys.skip(1)));
        lemma_subject_unique(t, p + 1, xs[0], ys[0]);
        lemma_subjects_tail_unique(t, p + 1 + subject_text(xs[0]).len(), xs.skip(1), ys.skip(1));
        assert(xs =~= seq![xs[0]] + xs.skip(1));
        assert(ys =~= seq![ys[0]] + ys.skip(1));
    } else if xs.len() == 0 && ys.len() == 0 {
        assert(xs =~= ys);
    }
}

/// Distinct snapshots have distinct cached texts: the text determines every
/// field of the snapshot it was written from.
pub proof fn lemma_snapshot_text_injective(a: SnapshotView, b: SnapshotView)
    requires
        snapshot_text(a) == snapshot_text(b),
    ensures
        a == b,
{
    let t = snapshot_text(a);
    lemma_snapshot_layout(t, a);
    lemma_snapshot_layout(t, b);
    let p1 = K_SEASON_ID@.len() as int;
    lemma_number_unique(t, p1, a.season_id as nat, ',', b.season_id as nat, ',');
    let p3 = p1 + decimal(a.season_id as nat).len() + K_SUBJECTS@.len();
    lemma_subjects_unique(t, p3, a.subjects, b.subjects);
    let p5 = p3 + subjects_text(a.subjects).len() + K_LAST_UPDATED@.len();
    lemma_number_unique(t, p5, a.last_updated as nat, '}', b.last_updated as nat, '}');
}

} // verus!
