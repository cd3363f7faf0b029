//! The persisted batch document: a single-line JSON rendering of a batch of
//! found keypairs, together with its parser. The format is
//!
//! ```text
//! {"suffix":S,"count":N,"generated_at":T,"keypairs":[{"public_key":P,"private_key":K},...]}
//! ```
//!
//! where `S`, `T`, `P` and `K` are quoted strings with `"` and `\` escaped by
//! a backslash, and `N` is the decimal element count. Rendering and parsing
//! are exact inverses (see `lemma_render_parse_roundtrip`).

use vstd::prelude::*;

verus! {

/// One persisted keypair record: the textual address and the base58-encoded
/// raw keypair bytes.
#[derive(Debug)]
pub struct VanityKeypair {
    pub public_key: String,
    pub private_key: String,
}

/// One persisted batch: the suffix its keypairs were searched for, the
/// element count, a generation timestamp, and the records themselves.
#[derive(Debug)]
pub struct VanityBatch {
    pub suffix: String,
    pub count: usize,
    pub generated_at: String,
    pub keypairs: Vec<VanityKeypair>,
}

#[verifier::ext_equal]
pub ghost struct RecordView {
    pub public_key: Seq<char>,
    pub private_key: Seq<char>,
}

#[verifier::ext_equal]
pub ghost struct BatchView {
    pub suffix: Seq<char>,
    pub count: nat,
    pub generated_at: Seq<char>,
    pub keypairs: Seq<RecordView>,
}

impl View for VanityKeypair {
    type V = RecordView;

    open spec fn view(&self) -> RecordView {
        RecordView { public_key: self.public_key@, private_key: self.private_key@ }
    }
}

impl View for VanityBatch {
    type V = BatchView;

    open spec fn view(&self) -> BatchView {
        BatchView {
            suffix: self.suffix@,
            count: self.count as nat,
            generated_at: self.generated_at@,
            keypairs: self.keypairs@.map_values(|k: VanityKeypair| k@),
        }
    }
}

/// How a batch can fail to load.
#[derive(Clone, Copy, Debug, PartialEq, Eq, Structural)]
pub enum VanityError {
    /// The file's stored suffix is not the requested one.
    SuffixMismatch,
    /// The text is not a well-formed batch document.
    MalformedDocument,
    /// A stored private key does not decode to a valid keypair, or a decoded
    /// keypair does not carry the stored suffix.
    InvalidPrivateKey,
}

// ---------------------------------------------------------------------------
// Rendering, as a specification.
// ---------------------------------------------------------------------------

/// A character's escaped form inside a quoted string.
pub open spec fn escape_char(c: char) -> Seq<char> {
    if c == '"' || c == '\\' {
        seq!['\\', c]
    } else {
        seq![c]
    }
}

/// A string's escaped form: each character escaped in turn.
pub open spec fn escape_seq(s: Seq<char>) -> Seq<char>
    decreases s.len(),
{
    if s.len() == 0 {
        Seq::empty()
    } else {
        escape_char(s[0]) + escape_seq(s.skip(1))
    }
}

/// The decimal digit character for `d < 10`.
pub open spec fn dec_digit(d: nat) -> char {
    if d == 0 { '0' }
    else if d == 1 { '1' }
    else if d == 2 { '2' }
    else if d == 3 { '3' }
    else if d == 4 { '4' }
    else if d == 5 { '5' }
    else if d == 6 { '6' }
    else if d == 7 { '7' }
    else if d == 8 { '8' }
    else { '9' }
}

/// The decimal rendering of `n`, most significant digit first, no leading
/// zeros (and `0` itself rendered as "0").
pub open spec fn dec_rep(n: nat) -> Seq<char>
    decreases n,
{
    if n < 10 {
        seq![dec_digit(n)]
    } else {
        dec_rep(n / 10).push(dec_digit(n % 10))
    }
}

/// The rendering of one keypair record.
pub open spec fn render_rec_spec(r: RecordView) -> Seq<char> {
    "{\"public_key\":\""@ + escape_seq(r.public_key) + "\""@ + ",\"private_key\":\""@
        + escape_seq(r.private_key) + "\""@ + "}"@
}

/// The rendering of a record list: records joined by commas.
pub open spec fn render_recs_spec(rs: Seq<RecordView>) -> Seq<char>
    decreases rs.len(),
{
    if rs.len() == 0 {
        Seq::empty()
    } else if rs.len() == 1 {
        render_rec_spec(rs[0])
    } else {
        render_rec_spec(rs[0]) + ","@ + render_recs_spec(rs.skip(1))
    }
}

/// The rendering of a whole batch document.
pub open spec fn render_batch_spec(b: BatchView) -> Seq<char> {
    "{\"suffix\":\""@ + escape_seq(b.suffix) + "\""@ + ",\"count\":"@ + dec_rep(b.count)
        + ",\"generated_at\":\""@ + escape_seq(b.generated_at) + "\""@ + ",\"keypairs\":["@
        + render_recs_spec(b.keypairs) + "]"@ + "}"@
}

// ---------------------------------------------------------------------------
// Parsing, as a specification. Each combinator consumes a prefix and returns
// the value read together with the remaining input, or nothing on a
// malformed prefix.
// ---------------------------------------------------------------------------

/// Consume the literal `lit`.
pub open spec fn parse_lit(s: Seq<char>, lit: Seq<char>) -> Option<Seq<char>> {
    if lit.len() <= s.len() && s.subrange(0, lit.len() as int) == lit {
        Some(s.skip(lit.len() as int))
    } else {
        None
    }
}

/// Consume a quoted string's body up to and including its closing quote,
/// undoing the `\"` and `\\` escapes.
pub open spec fn parse_str_body(s: Seq<char>) -> Option<(Seq<char>, Seq<char>)>
    decreases s.len(),
{
    if s.len() == 0 {
        None
    } else if s[0] == '"' {
        Some((Seq::empty(), s.skip(1)))
    } else if s[0] == '\\' {
        if s.len() >= 2 && (s[1] == '"' || s[1] == '\\') {
            match parse_str_body(s.skip(2)) {
                Some((v, rest)) => Some((seq![s[1]] + v, rest)),
                None => None,
            }
        } else {
            None
        }
    } else {
        match parse_str_body(s.skip(1)) {
            Some((v, rest)) => Some((seq![s[0]] + v, rest)),
            None => None,
        }
    }
}

/// Whether `c` is a decimal digit.
pub open spec fn is_digit(c: char) -> bool {
    '0' <= c && c <= '9'
}

/// The numeric value of a digit character.
pub open spec fn digit_val(c: char) -> nat {
    (c as int - '0' as int) as nat
}

/// The value of a digit string, most significant digit first.
pub open spec fn dec_val(ds: Seq<char>) -> nat
    decreases ds.len(),
{
    if ds.len() == 0 {
        0
    } else {
        dec_val(ds.drop_last()) * 10 + digit_val(ds.last())
    }
}

/// How many digits `s` starts with.
pub open spec fn digit_count(s: Seq<char>) -> nat
    decreases s.len(),
{
    if s.len() == 0 || !is_digit(s[0]) {
        0
    } else {
        1 + digit_count(s.skip(1))
    }
}

/// Consume a nonempty run of digits and read it as a decimal number.
pub open spec fn parse_number(s: Seq<char>) -> Option<(nat, Seq<char>)> {
    let k = digit_count(s);
    if k == 0 {
        None
    } else {
        Some((dec_val(s.take(k as int)), s.skip(k as int)))
    }
}

/// Consume one keypair record.
pub open spec fn parse_rec(s: Seq<char>) -> Option<(RecordView, Seq<char>)> {
    match parse_lit(s, "{\"public_key\":\""@) {
        None => None,
        Some(s1) => match parse_str_body(s1) {
            None => None,
            Some((pk, s2)) => match parse_lit(s2, ",\"private_key\":\""@) {
                None => None,
                Some(s3) => match parse_str_body(s3) {
                    None => None,
                    Some((sk, s4)) => match parse_lit(s4, "}"@) {
                        None => None,
                        Some(s5) => Some((RecordView { public_key: pk, private_key: sk }, s5)),
                    },
                },
            },
        },
    }
}

/// Consume a nonempty comma-separated record list up to and including its
/// closing bracket.
pub open spec fn parse_recs_ne(s: Seq<char>) -> Option<(Seq<RecordView>, Seq<char>)>
    decreases s.len(),
    via parse_recs_ne_decreases
{
    match parse_rec(s) {
        None => None,
        Some((r, rest)) => {
            if rest.len() > 0 && rest[0] == ',' {
                match parse_recs_ne(rest.skip(1)) {
                    None => None,
                    Some((rs, rest2)) => Some((seq![r] + rs, rest2)),
                }
            } else if rest.len() > 0 && rest[0] == ']' {
                Some((seq![r], rest.skip(1)))
            } else {
                None
            }
        },
    }
}

#[via_fn]
proof fn parse_recs_ne_decreases(s: Seq<char>) {
    match parse_rec(s) {
        None => {},
        Some((r, rest)) => {
            lemma_parse_rec_consumes(s);
        },
    }
}

/// Consume a record list up to and including its closing bracket; the list
/// may be empty.
pub open spec fn parse_recs(s: Seq<char>) -> Option<(Seq<RecordView>, Seq<char>)> {
    if s.len() > 0 && s[0] == ']' {
        Some((Seq::empty(), s.skip(1)))
    } else {
        parse_recs_ne(s)
    }
}

/// Parse a whole batch document; the entire input must be consumed.
pub open spec fn parse_batch_spec(s: Seq<char>) -> Option<BatchView> {
    match parse_lit(s, "{\"suffix\":\""@) {
        None => None,
        Some(s1) => match parse_str_body(s1) {
            None => None,
            Some((suffix, s2)) => match parse_lit(s2, ",\"count\":"@) {
                None => None,
                Some(s3) => match parse_number(s3) {
                    None => None,
                    Some((count, s4)) => match parse_lit(s4, ",\"generated_at\":\""@) {
                        None => None,
                        Some(s5) => match parse_str_body(s5) {
                            None => None,
                            Some((ts, s6)) => match parse_lit(s6, ",\"keypairs\":["@) {
                                None => None,
                                Some(s7) => match parse_recs(s7) {
                                    None => None,
                                    Some((recs, s8)) => match parse_lit(s8, "}"@) {
                                        None => None,
                                        Some(s9) => if s9.len() == 0 {
                                            Some(BatchView {
                                                suffix,
                                                count,
                                                generated_at: ts,
                                                keypairs: recs,
                                            })
                                        } else {
                                            None
                                        },
                                    },
                                },
                            },
                        },
                    },
                },
            },
        },
    }
}

// ---------------------------------------------------------------------------
// Facts about the combinators.
// ---------------------------------------------------------------------------

/// A literal at the front of the input is consumed exactly.
pub proof fn lemma_parse_lit_concat(lit: Seq<char>, rest: Seq<char>)
    ensures
        parse_lit(lit + rest, lit) == Some(rest),
{
    let s = lit + rest;
    assert(s.subrange(0, lit.len() as int) =~= lit);
    assert(s.skip(lit.len() as int) =~= rest);
}

/// A parsed string body always consumes at least its closing quote.
pub proof fn lemma_parse_str_body_consumes(s: Seq<char>)
    ensures
        parse_str_body(s) matches Some((v, rest)) ==> rest.len() < s.len(),
    decreases s.len(),
{
    if s.len() == 0 {
    } else if s[0] == '"' {
    } else if s[0] == '\\' {
        if s.len() >= 2 && (s[1] == '"' || s[1] == '\\') {
            lemma_parse_str_body_consumes(s.skip(2));
        }
    } else {
        lemma_parse_str_body_consumes(s.skip(1));
    }
}

/// A parsed record consumes at least one character.
pub proof fn lemma_parse_rec_consumes(s: Seq<char>)
    ensures
        parse_rec(s) matches Some((r, rest)) ==> rest.len() < s.len(),
{
    reveal_strlit("{\"public_key\":\"");
    reveal_strlit(",\"private_key\":\"");
    reveal_strlit("}");
    match parse_lit(s, "{\"public_key\":\""@) {
        None => {},
        Some(s1) => {
            assert(s1.len() < s.len());
            match parse_str_body(s1) {
                None => {},
                Some((pk, s2)) => {
                    lemma_parse_str_body_consumes(s1);
                    match parse_lit(s2, ",\"private_key\":\""@) {
                        None => {},
                        Some(s3) => {
                            assert(s3.len() < s2.len());
                            match parse_str_body(s3) {
                                None => {},
                                Some((sk, s4)) => {
                                    lemma_parse_str_body_consumes(s3);
                                },
                            }
                        },
                    }
                },
            }
        },
    }
}

/// Escaping commutes with appending one character at the back.
pub proof fn lemma_escape_snoc(s: Seq<char>, c: char)
    ensures
        escape_seq(s.push(c)) == escape_seq(s) + escape_char(c),
    decreases s.len(),
{
    if s.len() == 0 {
        assert(s.push(c)[0] == c);
        assert(s.push(c).skip(1) =~= Seq::<char>::empty());
        assert(escape_seq(s.push(c)) == escape_char(c) + escape_seq(Seq::<char>::empty()));
        assert(escape_char(c) + Seq::<char>::empty() =~= escape_char(c));
        assert(escape_seq(s) =~= Seq::<char>::empty());
        assert(escape_seq(s) + escape_char(c) =~= escape_char(c));
    } else {
        assert(s.push(c)[0] == s[0]);
        assert(s.push(c).skip(1) =~= s.skip(1).push(c));
        lemma_escape_snoc(s.skip(1), c);
        assert(escape_seq(s.push(c)) == escape_char(s[0]) + (escape_seq(s.skip(1))
            + escape_char(c)));
        assert(escape_char(s[0]) + (escape_seq(s.skip(1)) + escape_char(c)) =~= (escape_char(s[0])
            + escape_seq(s.skip(1))) + escape_char(c));
    }
}

/// Parsing a string body undoes escaping: the escaped text followed by a
/// closing quote and anything further parses back to the original text.
pub proof fn lemma_parse_str_body_roundtrip(v: Seq<char>, rest: Seq<char>)
    ensures
        parse_str_body(escape_seq(v) + seq!['"'] + rest) == Some((v, rest)),
    decreases v.len(),
{
    let s = escape_seq(v) + seq!['"'] + rest;
    if v.len() == 0 {
        assert(s[0] == '"');
        assert(s.skip(1) =~= rest);
        assert(parse_str_body(s) == Some((Seq::<char>::empty(), rest)));
        assert(Seq::<char>::empty() =~= v);
    } else {
        let c = v[0];
        let v1 = v.skip(1);
        lemma_parse_str_body_roundtrip(v1, rest);
        let s1 = escape_seq(v1) + seq!['"'] + rest;
        if c == '"' || c == '\\' {
            assert(escape_seq(v) =~= seq!['\\', c] + escape_seq(v1));
            assert(s =~= seq!['\\', c] + s1);
            assert(s[0] == '\\');
            assert(s[1] == c);
            assert(s.skip(2) =~= s1);
            assert(parse_str_body(s) == Some((seq![c] + v1, rest)));
            assert(seq![c] + v1 =~= v);
        } else {
            assert(escape_seq(v) =~= seq![c] + escape_seq(v1));
            assert(s =~= seq![c] + s1);
            assert(s[0] == c);
            assert(s.skip(1) =~= s1);
            assert(parse_str_body(s) == Some((seq![c] + v1, rest)));
            assert(seq![c] + v1 =~= v);
        }
    }
}

/// Every character of a decimal rendering is a digit.
pub proof fn lemma_dec_rep_digits(n: nat)
    ensures
        dec_rep(n).len() >= 1,
        forall|i: int| 0 <= i < dec_rep(n).len() ==> is_digit(#[trigger] dec_rep(n)[i]),
    decreases n,
{
    if n < 10 {
    } else {
        lemma_dec_rep_digits(n / 10);
    }
}

/// A digit character reads back to the digit it renders.
pub proof fn lemma_digit_val_of_dec_digit(d: nat)
    requires
        d < 10,
    ensures
        is_digit(dec_digit(d)),
        digit_val(dec_digit(d)) == d,
{
}

/// A decimal rendering reads back to the number it renders.
pub proof fn lemma_dec_val_of_rep(n: nat)
    ensures
        dec_val(dec_rep(n)) == n,
    decreases n,
{
    if n < 10 {
        lemma_digit_val_of_dec_digit(n);
        assert(dec_rep(n).drop_last() =~= Seq::<char>::empty());
        assert(dec_rep(n).last() == dec_digit(n));
        assert(dec_val(Seq::<char>::empty()) == 0);
    } else {
        lemma_dec_val_of_rep(n / 10);
        lemma_digit_val_of_dec_digit(n % 10);
        assert(dec_rep(n).drop_last() =~= dec_rep(n / 10));
        assert(dec_rep(n).last() == dec_digit(n % 10));
    }
}

/// The digit run at the front of `ds + rest` is exactly `ds` when `ds` is
/// all digits and `rest` does not begin with one.
pub proof fn lemma_digit_count_exact(ds: Seq<char>, rest: Seq<char>)
    requires
        forall|i: int| 0 <= i < ds.len() ==> is_digit(#[trigger] ds[i]),
        rest.len() == 0 || !is_digit(rest[0]),
    ensures
        digit_count(ds + rest) == ds.len(),
    decreases ds.len(),
{
    let s = ds + rest;
    if ds.len() == 0 {
        assert(s =~= rest);
    } else {
        assert(s[0] == ds[0]);
        assert(s.skip(1) =~= ds.skip(1) + rest);
        lemma_digit_count_exact(ds.skip(1), rest);
    }
}

/// Parsing a number undoes decimal rendering, provided what follows does not
/// begin with a digit.
pub proof fn lemma_parse_number_roundtrip(n: nat, rest: Seq<char>)
    requires
        rest.len() == 0 || !is_digit(rest[0]),
    ensures
        parse_number(dec_rep(n) + rest) == Some((n, rest)),
{
    let ds = dec_rep(n);
    let s = ds + rest;
    lemma_dec_rep_digits(n);
    lemma_digit_count_exact(ds, rest);
    assert(s.take(ds.len() as int) =~= ds);
    assert(s.skip(ds.len() as int) =~= rest);
    lemma_dec_val_of_rep(n);
}

/// Parsing a record undoes rendering one.
pub proof fn lemma_parse_rec_roundtrip(r: RecordView, rest: Seq<char>)
    ensures
        parse_rec(render_rec_spec(r) + rest) == Some((r, rest)),
{
    reveal_strlit("{\"public_key\":\"");
    reveal_strlit(",\"private_key\":\"");
    reveal_strlit("}");
    reveal_strlit("\"");
    let l1 = "{\"public_key\":\""@;
    let l2 = ",\"private_key\":\""@;
    let l3 = "}"@;
    let q = "\""@;
    assert(q =~= seq!['"']);
    let tail1 = escape_seq(r.public_key) + seq!['"'] + (l2 + (escape_seq(r.private_key)
        + seq!['"'] + l3)) + rest;
    assert(render_rec_spec(r) + rest =~= l1 + tail1);
    lemma_parse_lit_concat(l1, tail1);
    let tail2 = l2 + (escape_seq(r.private_key) + seq!['"'] + l3) + rest;
    assert(tail1 =~= escape_seq(r.public_key) + seq!['"'] + (tail2));
    lemma_parse_str_body_roundtrip(r.public_key, tail2);
    let tail3 = escape_seq(r.private_key) + seq!['"'] + (l3 + rest);
    assert(tail2 =~= l2 + tail3);
    lemma_parse_lit_concat(l2, tail3);
    lemma_parse_str_body_roundtrip(r.private_key, l3 + rest);
    lemma_parse_lit_concat(l3, rest);
}

/// Parsing a nonempty record list undoes rendering one.
pub proof fn lemma_parse_recs_roundtrip(rs: Seq<RecordView>, rest: Seq<char>)
    requires
        rs.len() >= 1,
    ensures
        parse_recs_ne(render_recs_spec(rs) + seq![']'] + rest) == Some((rs, rest)),
    decreases rs.len(),
{
    let s = render_recs_spec(rs) + seq![']'] + rest;
    if rs.len() == 1 {
        let r0 = rs[0];
        assert(render_recs_spec(rs) == render_rec_spec(r0));
        assert(s =~= render_rec_spec(r0) + (seq![']'] + rest));
        lemma_parse_rec_roundtrip(r0, seq![']'] + rest);
        let rest0 = seq![']'] + rest;
        assert(rest0[0] == ']');
        assert(rest0.skip(1) =~= rest);
        assert(seq![r0] =~= rs);
    } else {
        let r0 = rs[0];
        let rs1 = rs.skip(1);
        let comma = ","@;
        reveal_strlit(",");
        assert(comma =~= seq![',']);
        let s1 = render_recs_spec(rs1) + seq![']'] + rest;
        let rest0 = seq![','] + s1;
        assert(s =~= render_rec_spec(r0) + rest0);
        lemma_parse_rec_roundtrip(r0, rest0);
        assert(rest0[0] == ',');
        assert(rest0.skip(1) =~= s1);
        lemma_parse_recs_roundtrip(rs1, rest);
        assert(seq![r0] + rs1 =~= rs);
    }
}

/// Parsing undoes rendering: every batch document reads back to exactly the
/// batch it was rendered from.
pub proof fn lemma_render_parse_roundtrip(b: BatchView)
    ensures
        parse_batch_spec(render_batch_spec(b)) == Some(b),
{
    reveal_strlit("{\"suffix\":\"");
    reveal_strlit(",\"count\":");
    reveal_strlit(",\"generated_at\":\"");
    reveal_strlit(",\"keypairs\":[");
    reveal_strlit("\"");
    reveal_strlit("]");
    reveal_strlit("}");
    let l1 = "{\"suffix\":\""@;
    let lc = ",\"count\":"@;
    let lg = ",\"generated_at\":\""@;
    let lk = ",\"keypairs\":["@;
    let q = "\""@;
    let rb = "]"@;
    let rc = "}"@;
    assert(q =~= seq!['"']);
    let s = render_batch_spec(b);

    let t7 = render_recs_spec(b.keypairs) + rb + rc;
    let t6 = lk + t7;
    let t5 = escape_seq(b.generated_at) + seq!['"'] + t6;
    let t4 = lg + t5;
    let t3 = dec_rep(b.count) + t4;
    let t2 = lc + t3;
    let t1 = escape_seq(b.suffix) + seq!['"'] + t2;
    assert(s =~= l1 + t1);
    lemma_parse_lit_concat(l1, t1);
    lemma_parse_str_body_roundtrip(b.suffix, t2);
    lemma_parse_lit_concat(lc, t3);
    assert(t4[0] == ',');
    assert(!is_digit(','));
    lemma_parse_number_roundtrip(b.count, t4);
    lemma_parse_lit_concat(lg, t5);
    lemma_parse_str_body_roundtrip(b.generated_at, t6);
    lemma_parse_lit_concat(lk, t7);
    if b.keypairs.len() == 0 {
        assert(render_recs_spec(b.keypairs) =~= Seq::<char>::empty());
        assert(t7 =~= seq![']'] + rc);
        assert(t7[0] == ']');
        assert(t7.skip(1) =~= rc);
        assert(parse_recs(t7) == Some((Seq::<RecordView>::empty(), rc)));
    } else {
        assert(t7 =~= render_recs_spec(b.keypairs) + seq![']'] + rc);
        lemma_parse_recs_roundtrip(b.keypairs, rc);
        lemma_render_recs_first(b.keypairs);
        assert(t7[0] == '{');
        assert(parse_recs(t7) == Some((b.keypairs, rc)));
    }
    lemma_parse_lit_concat(rc, Seq::<char>::empty());
    assert(rc + Seq::<char>::empty() =~= rc);
    let parsed = parse_batch_spec(s);
    assert(parsed matches Some(pb) && pb.suffix == b.suffix && pb.count == b.count
        && pb.generated_at == b.generated_at && pb.keypairs == b.keypairs);
    assert(parsed.unwrap() =~= b);
}

/// A rendered record list begins with an opening brace, never with the
/// closing bracket, so the empty-list branch of `parse_recs` does not fire
/// on it.
proof fn lemma_render_recs_first(rs: Seq<RecordView>)
    requires
        rs.len() >= 1,
    ensures
        render_recs_spec(rs).len() >= 1,
        render_recs_spec(rs)[0] == '{',
{
    reveal_strlit("{\"public_key\":\"");
    assert("{\"public_key\":\""@[0] == '{');
    assert(render_rec_spec(rs[0])[0] == '{');
}

/// Rendering a record list commutes with appending one record at the back.
pub proof fn lemma_render_recs_snoc(rs: Seq<RecordView>, r: RecordView)
    ensures
        render_recs_spec(rs.push(r)) == if rs.len() == 0 {
            render_rec_spec(r)
        } else {
            render_recs_spec(rs) + ","@ + render_rec_spec(r)
        },
    decreases rs.len(),
{
    let e = rs.push(r);
    if rs.len() == 0 {
        assert(e[0] == r);
    } else if rs.len() == 1 {
        assert(e[0] == rs[0]);
        assert(e.skip(1) =~= seq![r]);
        assert(render_recs_spec(seq![r]) == render_rec_spec(r));
        assert(render_recs_spec(e) == render_rec_spec(rs[0]) + ","@ + render_rec_spec(r));
    } else {
        assert(e[0] == rs[0]);
        assert(e.skip(1) =~= rs.skip(1).push(r));
        lemma_render_recs_snoc(rs.skip(1), r);
        assert(render_recs_spec(e) == render_rec_spec(rs[0]) + ","@ + (render_recs_spec(rs.skip(1))
            + ","@ + render_rec_spec(r)));
        assert(render_rec_spec(rs[0]) + ","@ + (render_recs_spec(rs.skip(1)) + ","@
            + render_rec_spec(r)) =~= (render_rec_spec(rs[0]) + ","@ + render_recs_spec(rs.skip(1)))
            + ","@ + render_rec_spec(r));
    }
}

// ---------------------------------------------------------------------------
// Rendering, executable.
// ---------------------------------------------------------------------------

/// Relies on `String::push`: appends exactly the one character.
#[verifier::external_body]
fn push_char(out: &mut String, c: char)
    ensures
        final(out)@ == old(out)@.push(c),
{
    out.push(c);
}

/// Append the escaped form of `s` to `out`.
fn append_escaped(out: &mut String, s: &str)
    ensures
        final(out)@ == old(out)@ + escape_seq(s@),
{
    let n: usize = s.unicode_len();
    let mut i: usize = 0;
    proof {
        assert(s@.take(0) =~= Seq::<char>::empty());
        assert(old(out)@ + Seq::<char>::empty() =~= old(out)@);
    }
    while i < n
        invariant
            i <= n,
            n == s@.len(),
            out@ == old(out)@ + escape_seq(s@.take(i as int)),
        decreases n - i,
    {
        let c = s.get_char(i);
        let ghost pre = out@;
        if c == '"' || c == '\\' {
            push_char(out, '\\');
            push_char(out, c);
            proof {
                assert(out@ =~= pre + seq!['\\', c]);
            }
        } else {
            push_char(out, c);
            proof {
                assert(out@ =~= pre + seq![c]);
            }
        }
        proof {
            assert(out@ == pre + escape_char(c));
            assert(s@.take(i + 1) =~= s@.take(i as int).push(c));
            lemma_escape_snoc(s@.take(i as int), c);
            assert(old(out)@ + escape_seq(s@.take(i as int)) + escape_char(c) =~= old(out)@
                + (escape_seq(s@.take(i as int)) + escape_char(c)));
        }
        i += 1;
    }
    proof {
        assert(s@.take(n as int) =~= s@);
    }
}

/// The digit character for `d < 10`.
fn digit_char(d: usize) -> (c: char)
    requires
        d < 10,
    ensures
        c == dec_digit(d as nat),
{
    if d == 0 { '0' }
    else if d == 1 { '1' }
    else if d == 2 { '2' }
    else if d == 3 { '3' }
    else if d == 4 { '4' }
    else if d == 5 { '5' }
    else if d == 6 { '6' }
    else if d == 7 { '7' }
    else if d == 8 { '8' }
    else { '9' }
}

/// Append the decimal rendering of `n` to `out`.
fn append_dec(out: &mut String, n: usize)
    ensures
        final(out)@ == old(out)@ + dec_rep(n as nat),
    decreases n,
{
    if n < 10 {
        push_char(out, digit_char(n));
        proof {
            assert(old(out)@.push(dec_digit(n as nat)) =~= old(out)@ + seq![dec_digit(n as nat)]);
        }
    } else {
        append_dec(out, n / 10);
        push_char(out, digit_char(n % 10));
        proof {
            assert((old(out)@ + dec_rep((n / 10) as nat)).push(dec_digit((n % 10) as nat))
                =~= old(out)@ + dec_rep((n / 10) as nat).push(dec_digit((n % 10) as nat)));
        }
    }
}

/// Append the rendering of one record to `out`.
fn append_rec(out: &mut String, r: &VanityKeypair)
    ensures
        final(out)@ == old(out)@ + render_rec_spec(r@),
{
    out.append("{\"public_key\":\"");
    append_escaped(out, r.public_key.as_str());
    out.append("\"");
    out.append(",\"private_key\":\"");
    append_escaped(out, r.private_key.as_str());
    out.append("\"");
    out.append("}");
    proof {
        assert(out@ =~= old(out)@ + render_rec_spec(r@));
    }
}

/// Append the rendering of a record list to `out`.
fn append_recs(out: &mut String, rs: &Vec<VanityKeypair>)
    ensures
        final(out)@ == old(out)@ + render_recs_spec(rs@.map_values(|k: VanityKeypair| k@)),
{
    let ghost views = rs@.map_values(|k: VanityKeypair| k@);
    let mut i: usize = 0;
    proof {
        assert(views.take(0) =~= Seq::<RecordView>::empty());
        assert(old(out)@ + render_recs_spec(views.take(0)) =~= old(out)@);
    }
    while i < rs.len()
        invariant
            i <= rs.len(),
            views == rs@.map_values(|k: VanityKeypair| k@),
            out@ == old(out)@ + render_recs_spec(views.take(i as int)),
        decreases rs.len() - i,
    {
        let ghost pre = out@;
        if i > 0 {
            out.append(",");
        }
        append_rec(out, &rs[i]);
        proof {
            assert(views[i as int] == rs@[i as int]@);
            assert(views.take(i + 1) =~= views.take(i as int).push(views[i as int]));
            lemma_render_recs_snoc(views.take(i as int), views[i as int]);
            if i > 0 {
                assert(out@ == pre + ","@ + render_rec_spec(views[i as int]));
                assert(old(out)@ + render_recs_spec(views.take(i as int)) + ","@
                    + render_rec_spec(views[i as int]) =~= old(out)@
                    + (render_recs_spec(views.take(i as int)) + ","@
                    + render_rec_spec(views[i as int])));
            } else {
                assert(views.take(0) =~= Seq::<RecordView>::empty());
                assert(out@ == pre + render_rec_spec(views[i as int]));
            }
        }
        i += 1;
    }
    proof {
        assert(views.take(rs@.len() as int) =~= views);
    }
}

/// Render a batch as one document.
pub fn render_batch(b: &VanityBatch) -> (r: String)
    ensures
        r@ == render_batch_spec(b@),
{
    let mut out = String::new();
    proof {
        assert(Seq::<char>::empty() + "{\"suffix\":\""@ =~= "{\"suffix\":\""@);
    }
    out.append("{\"suffix\":\"");
    append_escaped(&mut out, b.suffix.as_str());
    out.append("\"");
    out.append(",\"count\":");
    append_dec(&mut out, b.count);
    out.append(",\"generated_at\":\"");
    append_escaped(&mut out, b.generated_at.as_str());
    out.append("\"");
    out.append(",\"keypairs\":[");
    append_recs(&mut out, &b.keypairs);
    out.append("]");
    out.append("}");
    out
}

// ---------------------------------------------------------------------------
// Parsing, executable.
// ---------------------------------------------------------------------------

/// Consume the literal `lit` at position `i`.
fn expect_lit(s: &str, i: usize, lit: &str) -> (r: Option<usize>)
    requires
        i <= s@.len(),
    ensures
        r matches Some(j) ==> i <= j <= s@.len() && parse_lit(s@.skip(i as int), lit@)
            == Some(s@.skip(j as int)),
        r is None ==> parse_lit(s@.skip(i as int), lit@) is None,
{
    let n: usize = s.unicode_len();
    let m: usize = lit.unicode_len();
    if m > n - i {
        proof {
            assert(s@.skip(i as int).len() < lit@.len());
        }
        return None;
    }
    let mut k: usize = 0;
    while k < m
        invariant
            i + m <= n,
            k <= m,
            n == s@.len(),
            m == lit@.len(),
            forall|t: int| 0 <= t < k ==> s@[i + t] == lit@[t],
        decreases m - k,
    {
        if s.get_char(i + k) != lit.get_char(k) {
            proof {
                assert(s@.skip(i as int).subrange(0, m as int)[k as int] == s@[i + k]);
                assert(s@.skip(i as int).subrange(0, m as int) != lit@);
            }
            return None;
        }
        k += 1;
    }
    proof {
        assert(s@.skip(i as int).subrange(0, m as int) =~= lit@);
        assert(s@.skip(i as int).skip(m as int) =~= s@.skip(i + m));
    }
    Some(i + m)
}

/// Consume a quoted string's body starting at position `i`, undoing the
/// escapes, up to and including its closing quote.
fn parse_string_at(s: &str, i: usize) -> (r: Option<(String, usize)>)
    requires
        i <= s@.len(),
    ensures
        r matches Some(p) ==> i <= p.1 <= s@.len() && parse_str_body(s@.skip(i as int))
            == Some((p.0@, s@.skip(p.1 as int))),
        r is None ==> parse_str_body(s@.skip(i as int)) is None,
{
    let n: usize = s.unicode_len();
    let mut k: usize = i;
    let mut out = String::new();
    loop
        invariant
            i <= k <= n,
            n == s@.len(),
            parse_str_body(s@.skip(i as int)) == (match parse_str_body(s@.skip(k as int)) {
                Some((v, rest)) => Some::<(Seq<char>, Seq<char>)>((out@ + v, rest)),
                None => None::<(Seq<char>, Seq<char>)>,
            }),
        decreases n - k,
    {
        if k == n {
            proof {
                assert(s@.skip(k as int) =~= Seq::<char>::empty());
            }
            return None;
        }
        let c = s.get_char(k);
        proof {
            assert(s@.skip(k as int)[0] == c);
        }
        if c == '"' {
            proof {
                assert(s@.skip(k as int).skip(1) =~= s@.skip(k + 1));
                assert(out@ + Seq::<char>::empty() =~= out@);
            }
            return Some((out, k + 1));
        } else if c == '\\' {
            if n - k < 2 {
                return None;
            }
            let c2 = s.get_char(k + 1);
            if c2 == '"' || c2 == '\\' {
                let ghost pre = out@;
                push_char(&mut out, c2);
                proof {
                    assert(s@.skip(k as int).len() >= 2);
                    assert(s@.skip(k as int)[1] == c2);
                    assert(s@.skip(k as int).skip(2) =~= s@.skip(k + 2));
                    match parse_str_body(s@.skip(k + 2)) {
                        Some((v, rest)) => {
                            assert(parse_str_body(s@.skip(k as int)) == Some::<(Seq<char>,
                                Seq<char>)>((seq![c2] + v, rest)));
                            assert(pre + (seq![c2] + v) =~= out@ + v);
                        },
                        None => {},
                    }
                }
                k += 2;
            } else {
                return None;
            }
        } else {
            let ghost pre = out@;
            push_char(&mut out, c);
            proof {
                assert(s@.skip(k as int).skip(1) =~= s@.skip(k + 1));
                match parse_str_body(s@.skip(k + 1)) {
                    Some((v, rest)) => {
                        assert(parse_str_body(s@.skip(k as int)) == Some::<(Seq<char>,
                            Seq<char>)>((seq![c] + v, rest)));
                        assert(pre + (seq![c] + v) =~= out@ + v);
                    },
                    None => {},
                }
            }
            k += 1;
        }
    }
}

/// Consume a nonempty digit run starting at position `i` and read it as a
/// number. Reports failure also on a number too large for `usize`.
fn parse_number_at(s: &str, i: usize) -> (r: Option<(usize, usize)>)
    requires
        i <= s@.len(),
    ensures
        r matches Some(p) ==> i <= p.1 <= s@.len() && parse_number(s@.skip(i as int))
            == Some((p.0 as nat, s@.skip(p.1 as int))),
        r is None ==> (parse_number(s@.skip(i as int)) is None || parse_number(
            s@.skip(i as int)).unwrap().0 > usize::MAX),
{
    let n: usize = s.unicode_len();
    let mut k: usize = i;
    let mut acc: usize = 0;
    let mut overflow: bool = false;
    loop
        invariant
            i <= k <= n,
            n == s@.len(),
            forall|t: int| i <= t < k ==> is_digit(#[trigger] s@[t]),
            !overflow ==> acc as nat == dec_val(s@.skip(i as int).take((k - i) as int)),
            overflow ==> dec_val(s@.skip(i as int).take((k - i) as int)) > usize::MAX,
        ensures
            i <= k <= n,
            n == s@.len(),
            forall|t: int| i <= t < k ==> is_digit(#[trigger] s@[t]),
            !overflow ==> acc as nat == dec_val(s@.skip(i as int).take((k - i) as int)),
            overflow ==> dec_val(s@.skip(i as int).take((k - i) as int)) > usize::MAX,
            k == n || !is_digit(s@[k as int]),
        decreases n - k,
    {
        if k == n {
            break;
        }
        let c = s.get_char(k);
        if !('0' <= c && c <= '9') {
            break;
        }
        let d: usize = (c as u32 - 48) as usize;
        let ghost ds = s@.skip(i as int).take((k - i) as int);
        let ghost ds2 = s@.skip(i as int).take((k + 1 - i) as int);
        proof {
            assert(s@.skip(i as int)[(k - i) as int] == s@[k as int]);
            assert(ds2 =~= ds.push(c));
            assert(ds2.drop_last() =~= ds);
            assert(dec_val(ds2) == dec_val(ds) * 10 + digit_val(c));
            assert(digit_val(c) == d);
        }
        if overflow {
            proof {
                assert(dec_val(ds2) >= dec_val(ds)) by (nonlinear_arith)
                    requires dec_val(ds2) == dec_val(ds) * 10 + digit_val(c);
            }
        } else if acc > (usize::MAX - d) / 10 {
            overflow = true;
            proof {
                assert(dec_val(ds) * 10 + d > usize::MAX) by (nonlinear_arith)
                    requires
                        dec_val(ds) > (usize::MAX as nat - d) / 10,
                        d < 10,
                ;
            }
        } else {
            proof {
                assert(acc * 10 + d <= usize::MAX) by (nonlinear_arith)
                    requires
                        acc <= (usize::MAX as nat - d) / 10,
                        d < 10,
                ;
            }
            acc = acc * 10 + d;
        }
        k += 1;
    }
    proof {
        let ds = s@.skip(i as int).take((k - i) as int);
        let rest = s@.skip(k as int);
        assert(s@.skip(i as int) =~= ds + rest);
        if k < n {
            assert(rest[0] == s@[k as int]);
        }
        lemma_digit_count_exact(ds, rest);
        assert(s@.skip(i as int).take(digit_count(s@.skip(i as int)) as int) =~= ds);
        assert(s@.skip(i as int).skip(digit_count(s@.skip(i as int)) as int) =~= rest);
    }
    if k == i {
        return None;
    }
    if overflow {
        return None;
    }
    Some((acc, k))
}

/// Consume one keypair record starting at position `i`.
fn parse_rec_at(s: &str, i: usize) -> (r: Option<(VanityKeypair, usize)>)
    requires
        i <= s@.len(),
    ensures
        r matches Some(p) ==> i <= p.1 <= s@.len() && parse_rec(s@.skip(i as int))
            == Some((p.0@, s@.skip(p.1 as int))),
        r is None ==> parse_rec(s@.skip(i as int)) is None,
{
    let j1 = match expect_lit(s, i, "{\"public_key\":\"") {
        Some(j) => j,
        None => { return None; },
    };
    let (pk, j2) = match parse_string_at(s, j1) {
        Some(p) => p,
        None => { return None; },
    };
    let j3 = match expect_lit(s, j2, ",\"private_key\":\"") {
        Some(j) => j,
        None => { return None; },
    };
    let (sk, j4) = match parse_string_at(s, j3) {
        Some(p) => p,
        None => { return None; },
    };
    let j5 = match expect_lit(s, j4, "}") {
        Some(j) => j,
        None => { return None; },
    };
    Some((VanityKeypair { public_key: pk, private_key: sk }, j5))
}

/// Consume a record list starting at position `i`, up to and including its
/// closing bracket.
fn parse_recs_at(s: &str, i: usize) -> (r: Option<(Vec<VanityKeypair>, usize)>)
    requires
        i <= s@.len(),
    ensures
        r matches Some(p) ==> i <= p.1 <= s@.len() && parse_recs(s@.skip(i as int))
            == Some((p.0@.map_values(|k: VanityKeypair| k@), s@.skip(p.1 as int))),
        r is None ==> parse_recs(s@.skip(i as int)) is None,
{
    let n: usize = s.unicode_len();
    let mut recs: Vec<VanityKeypair> = Vec::new();
    if i < n && s.get_char(i) == ']' {
        proof {
            assert(s@.skip(i as int)[0] == ']');
            assert(s@.skip(i as int).skip(1) =~= s@.skip(i + 1));
            assert(recs@.map_values(|k: VanityKeypair| k@) =~= Seq::<RecordView>::empty());
        }
        return Some((recs, i + 1));
    }
    proof {
        if s@.skip(i as int).len() > 0 {
            assert(s@.skip(i as int)[0] == s@[i as int]);
        }
        assert(parse_recs(s@.skip(i as int)) == parse_recs_ne(s@.skip(i as int)));
    }
    let mut p: usize = i;
    let mut pos: usize = i;
    loop
        invariant_except_break
            i <= p <= n,
            n == s@.len(),
            parse_recs(s@.skip(i as int)) == parse_recs_ne(s@.skip(i as int)),
            parse_recs_ne(s@.skip(i as int)) == (match parse_recs_ne(s@.skip(p as int)) {
                Some((rs, rest)) => Some::<(Seq<RecordView>, Seq<char>)>((recs@.map_values(
                    |k: VanityKeypair| k@) + rs, rest)),
                None => None::<(Seq<RecordView>, Seq<char>)>,
            }),
        ensures
            parse_recs(s@.skip(i as int)) matches Some(q) && q.0 == recs@.map_values(
                |k: VanityKeypair| k@) && q.1 == s@.skip(pos as int) && i <= pos <= n,
        decreases n - p,
    {
        let (kp, p2) = match parse_rec_at(s, p) {
            Some(q) => q,
            None => {
                return None;
            },
        };
        let ghost pre = recs@.map_values(|k: VanityKeypair| k@);
        if p2 < n && s.get_char(p2) == ',' {
            proof {
                assert(s@.skip(p2 as int)[0] == ',');
                assert(s@.skip(p2 as int).skip(1) =~= s@.skip(p2 + 1));
            }
            recs.push(kp);
            proof {
                assert(recs@.map_values(|k: VanityKeypair| k@) =~= pre.push(kp@));
                match parse_recs_ne(s@.skip(p2 + 1)) {
                    Some((rs2, rest2)) => {
                        assert(parse_recs_ne(s@.skip(p as int)) == Some::<(Seq<RecordView>,
                            Seq<char>)>((seq![kp@] + rs2, rest2)));
                        assert(pre + (seq![kp@] + rs2) =~= pre.push(kp@) + rs2);
                    },
                    None => {},
                }
            }
            p = p2 + 1;
        } else if p2 < n && s.get_char(p2) == ']' {
            proof {
                assert(s@.skip(p2 as int)[0] == ']');
                assert(s@.skip(p2 as int).skip(1) =~= s@.skip(p2 + 1));
                assert(parse_recs_ne(s@.skip(p as int)) == Some::<(Seq<RecordView>, Seq<char>)>((
                    seq![kp@], s@.skip(p2 + 1))));
            }
            recs.push(kp);
            proof {
                assert(recs@.map_values(|k: VanityKeypair| k@) =~= pre.push(kp@));
                assert(pre + seq![kp@] =~= pre.push(kp@));
            }
            pos = p2 + 1;
            break;
        } else {
            proof {
                if s@.skip(p2 as int).len() > 0 {
                    assert(s@.skip(p2 as int)[0] == s@[p2 as int]);
                }
                assert(parse_recs_ne(s@.skip(p as int)) is None);
            }
            return None;
        }
    }
    Some((recs, pos))
}

/// Parse one batch document. Succeeds exactly on the well-formed documents
/// whose count fits in `usize` (see `parse_batch_spec`), and reads back
/// exactly the batch a document renders (see `lemma_render_parse_roundtrip`).
pub fn parse_batch(s: &str) -> (r: Result<VanityBatch, VanityError>)
    ensures
        r matches Ok(b) ==> parse_batch_spec(s@) == Some(b@),
        r matches Err(e) ==> e == VanityError::MalformedDocument && (parse_batch_spec(s@) is None
            || parse_batch_spec(s@).unwrap().count > usize::MAX),
{
    let n: usize = s.unicode_len();
    proof {
        assert(s@.skip(0) =~= s@);
    }
    let j1 = match expect_lit(s, 0, "{\"suffix\":\"") {
        Some(j) => j,
        None => { return Err(VanityError::MalformedDocument); },
    };
    let (suffix, j2) = match parse_string_at(s, j1) {
        Some(p) => p,
        None => { return Err(VanityError::MalformedDocument); },
    };
    let j3 = match expect_lit(s, j2, ",\"count\":") {
        Some(j) => j,
        None => { return Err(VanityError::MalformedDocument); },
    };
    let (count, j4) = match parse_number_at(s, j3) {
        Some(p) => p,
        None => { return Err(VanityError::MalformedDocument); },
    };
    let j5 = match expect_lit(s, j4, ",\"generated_at\":\"") {
        Some(j) => j,
        None => { return Err(VanityError::MalformedDocument); },
    };
    let (ts, j6) = match parse_string_at(s, j5) {
        Some(p) => p,
        None => { return Err(VanityError::MalformedDocument); },
    };
    let j7 = match expect_lit(s, j6, ",\"keypairs\":[") {
        Some(j) => j,
        None => { return Err(VanityError::MalformedDocument); },
    };
    let (recs, pos) = match parse_recs_at(s, j7) {
        Some(p) => p,
        None => { return Err(VanityError::MalformedDocument); },
    };
    let j8 = match expect_lit(s, pos, "}") {
        Some(j) => j,
        None => { return Err(VanityError::MalformedDocument); },
    };
    if j8 != n {
        proof {
            assert(s@.skip(j8 as int).len() > 0);
        }
        return Err(VanityError::MalformedDocument);
    }
    let b = VanityBatch { suffix, count, generated_at: ts, keypairs: recs };
    proof {
        assert(s@.skip(j8 as int).len() == 0);
        assert(parse_batch_spec(s@) == Some(b@));
    }
    Ok(b)
}

} // verus!
