//! The stored form of a credential record and its codec.
//!
//! A record is written as a small, human-readable object with five fields in
//! a fixed order: the two tokens inside quotes, the two time-to-live values
//! and the write instant in canonical decimal.  `encode` produces exactly
//! `encode_model` of the record, and `parse` accepts a text if and only if
//! it is the encoding of some well-formed record — which `parse` then
//! returns.  Together with the injectivity of the encoding this gives the
//! save/load round trip, stated in `lemma_save_load_round_trip`.

use crate::state::{NordigenState, StateModel};
use crate::text::{
    dec_digits, digit_run_ok, expect_lit, is_digit_char, lemma_dec_digits_props,
    lemma_digit_run_unique, lemma_num_val_dec, lemma_run_is_dec, lemma_scanned_token_ok,
    lemma_string_end_unique, lemma_subrange_all, num_val, parse_number, scan_quoted,
    string_end_ok, token_char_ok, u64_to_string,
};
use vstd::prelude::*;

verus! {

pub open spec fn lit_head_s() -> Seq<char> {
    "{\n  \"token\": \""@
}

pub open spec fn lit_token_expires_s() -> Seq<char> {
    "\",\n  \"token_expires\": "@
}

pub open spec fn lit_refresh_token_s() -> Seq<char> {
    ",\n  \"refresh_token\": \""@
}

pub open spec fn lit_refresh_expires_s() -> Seq<char> {
    "\",\n  \"refresh_expires\": "@
}

pub open spec fn lit_written_at_s() -> Seq<char> {
    ",\n  \"written_at\": "@
}

pub open spec fn lit_tail_s() -> Seq<char> {
    "\n}"@
}

fn lit_head() -> (r: &'static str)
    ensures
        r@ == lit_head_s(),
{
    "{\n  \"token\": \""
}

fn lit_token_expires() -> (r: &'static str)
    ensures
        r@ == lit_token_expires_s(),
{
    "\",\n  \"token_expires\": "
}

fn lit_refresh_token() -> (r: &'static str)
    ensures
        r@ == lit_refresh_token_s(),
{
    ",\n  \"refresh_token\": \""
}

fn lit_refresh_expires() -> (r: &'static str)
    ensures
        r@ == lit_refresh_expires_s(),
{
    "\",\n  \"refresh_expires\": "
}

fn lit_written_at() -> (r: &'static str)
    ensures
        r@ == lit_written_at_s(),
{
    ",\n  \"written_at\": "
}

fn lit_tail() -> (r: &'static str)
    ensures
        r@ == lit_tail_s(),
{
    "\n}"
}

spec fn te_digits(v: StateModel) -> Seq<char> {
    dec_digits(v.token_expires as nat)
}

spec fn re_digits(v: StateModel) -> Seq<char> {
    dec_digits(v.refresh_expires as nat)
}

spec fn wa_digits(v: StateModel) -> Seq<char> {
    dec_digits(v.written_at as nat)
}

// The suffixes of the stored text, innermost first.
spec fn tail_wa(v: StateModel) -> Seq<char> {
    wa_digits(v) + lit_tail_s()
}

spec fn tail_wa_lit(v: StateModel) -> Seq<char> {
    lit_written_at_s() + tail_wa(v)
}

spec fn tail_re(v: StateModel) -> Seq<char> {
    re_digits(v) + tail_wa_lit(v)
}

spec fn tail_re_lit(v: StateModel) -> Seq<char> {
    lit_refresh_expires_s() + tail_re(v)
}

spec fn tail_ref(v: StateModel) -> Seq<char> {
    v.refresh_token + tail_re_lit(v)
}

spec fn tail_ref_lit(v: StateModel) -> Seq<char> {
    lit_refresh_token_s() + tail_ref(v)
}

spec fn tail_te(v: StateModel) -> Seq<char> {
    te_digits(v) + tail_ref_lit(v)
}

spec fn tail_te_lit(v: StateModel) -> Seq<char> {
    lit_token_expires_s() + tail_te(v)
}

spec fn tail_tok(v: StateModel) -> Seq<char> {
    v.token + tail_te_lit(v)
}

/// The stored text of a well-formed record.
pub open spec fn encode_model(v: StateModel) -> Seq<char> {
    lit_head_s() + (v.token + (lit_token_expires_s() + (dec_digits(v.token_expires as nat)
        + (lit_refresh_token_s() + (v.refresh_token + (lit_refresh_expires_s()
        + (dec_digits(v.refresh_expires as nat) + (lit_written_at_s()
        + (dec_digits(v.written_at as nat) + lit_tail_s())))))))))
}

proof fn lemma_encode_model_tails(v: StateModel)
    ensures
        encode_model(v) == lit_head_s() + tail_tok(v),
{
}

// Landmark positions inside `encode_model(v)`.
spec fn p_tok_end(v: StateModel) -> int {
    lit_head_s().len() + v.token.len() as int
}

spec fn p_te(v: StateModel) -> int {
    p_tok_end(v) + lit_token_expires_s().len()
}

spec fn p_te_end(v: StateModel) -> int {
    p_te(v) + te_digits(v).len()
}

spec fn p_ref(v: StateModel) -> int {
    p_te_end(v) + lit_refresh_token_s().len()
}

spec fn p_ref_end(v: StateModel) -> int {
    p_ref(v) + v.refresh_token.len()
}

spec fn p_re(v: StateModel) -> int {
    p_ref_end(v) + lit_refresh_expires_s().len()
}

spec fn p_re_end(v: StateModel) -> int {
    p_re(v) + re_digits(v).len()
}

spec fn p_wa(v: StateModel) -> int {
    p_re_end(v) + lit_written_at_s().len()
}

spec fn p_wa_end(v: StateModel) -> int {
    p_wa(v) + wa_digits(v).len()
}

proof fn lemma_lit_facts()
    ensures
        lit_head_s().len() >= 1,
        lit_token_expires_s().len() >= 1,
        lit_token_expires_s()[0] == '"',
        lit_refresh_token_s().len() >= 1,
        lit_refresh_token_s()[0] == ',',
        lit_refresh_expires_s().len() >= 1,
        lit_refresh_expires_s()[0] == '"',
        lit_written_at_s().len() >= 1,
        lit_written_at_s()[0] == ',',
        lit_tail_s().len() >= 1,
        lit_tail_s()[0] == '\n',
{
    reveal_strlit("{\n  \"token\": \"");
    reveal_strlit("\",\n  \"token_expires\": ");
    reveal_strlit(",\n  \"refresh_token\": \"");
    reveal_strlit("\",\n  \"refresh_expires\": ");
    reveal_strlit(",\n  \"written_at\": ");
    reveal_strlit("\n}");
}

/// Where each part of `encode_model(v)` stands.
#[verifier::spinoff_prover]
proof fn lemma_encode_placement(v: StateModel)
    ensures
        encode_model(v).len() == p_wa_end(v) + lit_tail_s().len(),
        encode_model(v).subrange(0, lit_head_s().len() as int) == lit_head_s(),
        encode_model(v).subrange(lit_head_s().len() as int, p_tok_end(v)) == v.token,
        encode_model(v).subrange(p_tok_end(v), p_te(v)) == lit_token_expires_s(),
        encode_model(v).subrange(p_te(v), p_te_end(v)) == te_digits(v),
        encode_model(v).subrange(p_te_end(v), p_ref(v)) == lit_refresh_token_s(),
        encode_model(v).subrange(p_ref(v), p_ref_end(v)) == v.refresh_token,
        encode_model(v).subrange(p_ref_end(v), p_re(v)) == lit_refresh_expires_s(),
        encode_model(v).subrange(p_re(v), p_re_end(v)) == re_digits(v),
        encode_model(v).subrange(p_re_end(v), p_wa(v)) == lit_written_at_s(),
        encode_model(v).subrange(p_wa(v), p_wa_end(v)) == wa_digits(v),
        encode_model(v).subrange(p_wa_end(v), encode_model(v).len() as int) == lit_tail_s(),
{
    let s = encode_model(v);
    lemma_encode_model_tails(v);
    lemma_subrange_all(s);
    crate::text::lemma_unpeel(s, 0, lit_head_s(), tail_tok(v));
    crate::text::lemma_unpeel(s, lit_head_s().len() as int, v.token, tail_te_lit(v));
    crate::text::lemma_unpeel(s, p_tok_end(v), lit_token_expires_s(), tail_te(v));
    crate::text::lemma_unpeel(s, p_te(v), te_digits(v), tail_ref_lit(v));
    crate::text::lemma_unpeel(s, p_te_end(v), lit_refresh_token_s(), tail_ref(v));
    crate::text::lemma_unpeel(s, p_ref(v), v.refresh_token, tail_re_lit(v));
    crate::text::lemma_unpeel(s, p_ref_end(v), lit_refresh_expires_s(), tail_re(v));
    crate::text::lemma_unpeel(s, p_re(v), re_digits(v), tail_wa_lit(v));
    crate::text::lemma_unpeel(s, p_re_end(v), lit_written_at_s(), tail_wa(v));
    crate::text::lemma_unpeel(s, p_wa(v), wa_digits(v), lit_tail_s());
}

/// Where each part of `encode_model(v)` stands, and what shape it has in
/// the eyes of the scanners: the decomposition a parser must agree with.
#[verifier::rlimit(100)]
#[verifier::spinoff_prover]
proof fn lemma_encode_parts(v: StateModel)
    requires
        v.wf(),
    ensures
        encode_model(v).len() == p_wa_end(v) + lit_tail_s().len(),
        encode_model(v).subrange(0, lit_head_s().len() as int) == lit_head_s(),
        string_end_ok(encode_model(v), lit_head_s().len() as int, p_tok_end(v)),
        encode_model(v).subrange(lit_head_s().len() as int, p_tok_end(v)) == v.token,
        encode_model(v).subrange(p_tok_end(v), p_te(v)) == lit_token_expires_s(),
        digit_run_ok(encode_model(v), p_te(v), p_te_end(v)),
        num_val(encode_model(v).subrange(p_te(v), p_te_end(v))) == v.token_expires,
        encode_model(v).subrange(p_te_end(v), p_ref(v)) == lit_refresh_token_s(),
        string_end_ok(encode_model(v), p_ref(v), p_ref_end(v)),
        encode_model(v).subrange(p_ref(v), p_ref_end(v)) == v.refresh_token,
        encode_model(v).subrange(p_ref_end(v), p_re(v)) == lit_refresh_expires_s(),
        digit_run_ok(encode_model(v), p_re(v), p_re_end(v)),
        num_val(encode_model(v).subrange(p_re(v), p_re_end(v))) == v.refresh_expires,
        encode_model(v).subrange(p_re_end(v), p_wa(v)) == lit_written_at_s(),
        digit_run_ok(encode_model(v), p_wa(v), p_wa_end(v)),
        num_val(encode_model(v).subrange(p_wa(v), p_wa_end(v))) == v.written_at,
        encode_model(v).subrange(p_wa_end(v), encode_model(v).len() as int) == lit_tail_s(),
{
    lemma_lit_facts();
    lemma_dec_digits_props(v.token_expires as nat);
    lemma_dec_digits_props(v.refresh_expires as nat);
    lemma_dec_digits_props(v.written_at as nat);
    lemma_num_val_dec(v.token_expires as nat);
    lemma_num_val_dec(v.refresh_expires as nat);
    lemma_num_val_dec(v.written_at as nat);
    let s = encode_model(v);
    lemma_encode_placement(v);

    // the token field scans as a quoted string ending at its closing quote
    assert(s[p_tok_end(v)] == '"') by {
        assert(s.subrange(p_tok_end(v), p_te(v))[0] == lit_token_expires_s()[0]);
    }
    assert forall|k: int| lit_head_s().len() <= k < p_tok_end(v) implies token_char_ok(
        #[trigger] s[k],
    ) by {
        assert(s.subrange(lit_head_s().len() as int, p_tok_end(v))[k - lit_head_s().len()]
            == v.token[k - lit_head_s().len()]);
    }
    assert(s[p_ref_end(v)] == '"') by {
        assert(s.subrange(p_ref_end(v), p_re(v))[0] == lit_refresh_expires_s()[0]);
    }
    assert forall|k: int| p_ref(v) <= k < p_ref_end(v) implies token_char_ok(
        #[trigger] s[k],
    ) by {
        assert(s.subrange(p_ref(v), p_ref_end(v))[k - p_ref(v)] == v.refresh_token[k - p_ref(v)]);
    }

    // each decimal field scans as a maximal canonical digit run
    assert forall|k: int| p_te(v) <= k < p_te_end(v) implies is_digit_char(#[trigger] s[k]) by {
        assert(s.subrange(p_te(v), p_te_end(v))[k - p_te(v)] == te_digits(v)[k - p_te(v)]);
    }
    assert(s[p_te_end(v)] == ',') by {
        assert(s.subrange(p_te_end(v), p_ref(v))[0] == lit_refresh_token_s()[0]);
    }
    assert(s[p_te(v)] == te_digits(v)[0]) by {
        assert(s.subrange(p_te(v), p_te_end(v))[0] == te_digits(v)[0]);
    }
    assert forall|k: int| p_re(v) <= k < p_re_end(v) implies is_digit_char(#[trigger] s[k]) by {
        assert(s.subrange(p_re(v), p_re_end(v))[k - p_re(v)] == re_digits(v)[k - p_re(v)]);
    }
    assert(s[p_re_end(v)] == ',') by {
        assert(s.subrange(p_re_end(v), p_wa(v))[0] == lit_written_at_s()[0]);
    }
    assert(s[p_re(v)] == re_digits(v)[0]) by {
        assert(s.subrange(p_re(v), p_re_end(v))[0] == re_digits(v)[0]);
    }
    assert forall|k: int| p_wa(v) <= k < p_wa_end(v) implies is_digit_char(#[trigger] s[k]) by {
        assert(s.subrange(p_wa(v), p_wa_end(v))[k - p_wa(v)] == wa_digits(v)[k - p_wa(v)]);
    }
    assert(s[p_wa_end(v)] == '\n') by {
        assert(s.subrange(p_wa_end(v), s.len() as int)[0] == lit_tail_s()[0]);
    }
    assert(s[p_wa(v)] == wa_digits(v)[0]) by {
        assert(s.subrange(p_wa(v), p_wa_end(v))[0] == wa_digits(v)[0]);
    }
}

/// The converse of `lemma_encode_parts`: a text whose parts all stand in
/// their places is the encoding.
proof fn lemma_compose(s: Seq<char>, v: StateModel)
    requires
        s.len() == p_wa_end(v) + lit_tail_s().len(),
        s.subrange(0, lit_head_s().len() as int) == lit_head_s(),
        s.subrange(lit_head_s().len() as int, p_tok_end(v)) == v.token,
        s.subrange(p_tok_end(v), p_te(v)) == lit_token_expires_s(),
        s.subrange(p_te(v), p_te_end(v)) == te_digits(v),
        s.subrange(p_te_end(v), p_ref(v)) == lit_refresh_token_s(),
        s.subrange(p_ref(v), p_ref_end(v)) == v.refresh_token,
        s.subrange(p_ref_end(v), p_re(v)) == lit_refresh_expires_s(),
        s.subrange(p_re(v), p_re_end(v)) == re_digits(v),
        s.subrange(p_re_end(v), p_wa(v)) == lit_written_at_s(),
        s.subrange(p_wa(v), p_wa_end(v)) == wa_digits(v),
        s.subrange(p_wa_end(v), s.len() as int) == lit_tail_s(),
    ensures
        s == encode_model(v),
{
    crate::text::lemma_peel(s, p_wa(v), wa_digits(v));
    crate::text::lemma_peel(s, p_re_end(v), lit_written_at_s());
    crate::text::lemma_peel(s, p_re(v), re_digits(v));
    crate::text::lemma_peel(s, p_ref_end(v), lit_refresh_expires_s());
    crate::text::lemma_peel(s, p_ref(v), v.refresh_token);
    crate::text::lemma_peel(s, p_te_end(v), lit_refresh_token_s());
    crate::text::lemma_peel(s, p_te(v), te_digits(v));
    crate::text::lemma_peel(s, p_tok_end(v), lit_token_expires_s());
    crate::text::lemma_peel(s, lit_head_s().len() as int, v.token);
    crate::text::lemma_peel(s, 0, lit_head_s());
    lemma_subrange_all(s);
}

// The stage lemmas below line the scanners' findings up with the landmark
// positions of the encoding, one field at a time: each shows that the
// position an executable scanner stopped at is the landmark.
proof fn lemma_stage_token(v: StateModel, s: Seq<char>, q1: int)
    requires
        v.wf(),
        s == encode_model(v),
        string_end_ok(s, lit_head_s().len() as int, q1),
    ensures
        q1 == p_tok_end(v),
        s.subrange(lit_head_s().len() as int, q1) == v.token,
{
    lemma_encode_parts(v);
    lemma_string_end_unique(s, lit_head_s().len() as int, q1, p_tok_end(v));
}

proof fn lemma_stage_te(v: StateModel, s: Seq<char>, q1: int, te_end: int)
    requires
        v.wf(),
        s == encode_model(v),
        string_end_ok(s, lit_head_s().len() as int, q1),
        digit_run_ok(s, q1 + lit_token_expires_s().len(), te_end),
    ensures
        q1 == p_tok_end(v),
        te_end == p_te_end(v),
        num_val(s.subrange(q1 + lit_token_expires_s().len() as int, te_end)) == v.token_expires,
{
    lemma_stage_token(v, s, q1);
    lemma_encode_parts(v);
    lemma_digit_run_unique(s, p_te(v), te_end, p_te_end(v));
}

proof fn lemma_stage_ref(v: StateModel, s: Seq<char>, q1: int, te_end: int, q2: int)
    requires
        v.wf(),
        s == encode_model(v),
        string_end_ok(s, lit_head_s().len() as int, q1),
        digit_run_ok(s, q1 + lit_token_expires_s().len(), te_end),
        string_end_ok(s, te_end + lit_refresh_token_s().len(), q2),
    ensures
        q1 == p_tok_end(v),
        te_end == p_te_end(v),
        q2 == p_ref_end(v),
        s.subrange(te_end + lit_refresh_token_s().len() as int, q2) == v.refresh_token,
{
    lemma_stage_te(v, s, q1, te_end);
    lemma_encode_parts(v);
    lemma_string_end_unique(s, p_ref(v), q2, p_ref_end(v));
}

proof fn lemma_stage_re(v: StateModel, s: Seq<char>, q1: int, te_end: int, q2: int, re_end: int)
    requires
        v.wf(),
        s == encode_model(v),
        string_end_ok(s, lit_head_s().len() as int, q1),
        digit_run_ok(s, q1 + lit_token_expires_s().len(), te_end),
        string_end_ok(s, te_end + lit_refresh_token_s().len(), q2),
        digit_run_ok(s, q2 + lit_refresh_expires_s().len(), re_end),
    ensures
        q1 == p_tok_end(v),
        te_end == p_te_end(v),
        q2 == p_ref_end(v),
        re_end == p_re_end(v),
        num_val(s.subrange(q1 + lit_token_expires_s().len() as int, te_end)) == v.token_expires,
        num_val(s.subrange(q2 + lit_refresh_expires_s().len() as int, re_end)) == v.refresh_expires,
{
    lemma_stage_te(v, s, q1, te_end);
    lemma_stage_ref(v, s, q1, te_end, q2);
    lemma_encode_parts(v);
    lemma_digit_run_unique(s, p_re(v), re_end, p_re_end(v));
}

proof fn lemma_stage_wa(
    v: StateModel,
    s: Seq<char>,
    q1: int,
    te_end: int,
    q2: int,
    re_end: int,
    wa_end: int,
)
    requires
        v.wf(),
        s == encode_model(v),
        string_end_ok(s, lit_head_s().len() as int, q1),
        digit_run_ok(s, q1 + lit_token_expires_s().len(), te_end),
        string_end_ok(s, te_end + lit_refresh_token_s().len(), q2),
        digit_run_ok(s, q2 + lit_refresh_expires_s().len(), re_end),
        digit_run_ok(s, re_end + lit_written_at_s().len(), wa_end),
    ensures
        q1 == p_tok_end(v),
        te_end == p_te_end(v),
        q2 == p_ref_end(v),
        re_end == p_re_end(v),
        wa_end == p_wa_end(v),
        num_val(s.subrange(q1 + lit_token_expires_s().len() as int, te_end)) == v.token_expires,
        num_val(s.subrange(q2 + lit_refresh_expires_s().len() as int, re_end)) == v.refresh_expires,
        num_val(s.subrange(re_end + lit_written_at_s().len() as int, wa_end)) == v.written_at,
{
    lemma_stage_re(v, s, q1, te_end, q2, re_end);
    lemma_encode_parts(v);
    lemma_digit_run_unique(s, p_wa(v), wa_end, p_wa_end(v));
}

/// Whether a stored text stands for the record `v`.
pub open spec fn parse_accepts(s: Seq<char>, v: StateModel) -> bool {
    v.wf() && s == encode_model(v)
}

/// No two well-formed records share a stored text.
pub proof fn lemma_encode_injective(v1: StateModel, v2: StateModel)
    requires
        v1.wf(),
        v2.wf(),
        encode_model(v1) == encode_model(v2),
    ensures
        v1.token == v2.token,
        v1.token_expires == v2.token_expires,
        v1.refresh_token == v2.refresh_token,
        v1.refresh_expires == v2.refresh_expires,
        v1.written_at == v2.written_at,
{
    let s = encode_model(v1);
    lemma_encode_parts(v2);
    lemma_stage_token(v1, s, p_tok_end(v2));
    lemma_stage_te(v1, s, p_tok_end(v2), p_te_end(v2));
    lemma_stage_ref(v1, s, p_tok_end(v2), p_te_end(v2), p_ref_end(v2));
    lemma_stage_re(v1, s, p_tok_end(v2), p_te_end(v2), p_ref_end(v2), p_re_end(v2));
    lemma_stage_wa(
        v1, s, p_tok_end(v2), p_te_end(v2), p_ref_end(v2), p_re_end(v2), p_wa_end(v2),
    );
}

/// The save/load round trip: whatever `parse` makes of the text under which
/// a well-formed record `x` was saved — the two `parse` postconditions are
/// this lemma's premises — it is `x` itself, field for field.
pub proof fn lemma_save_load_round_trip(x: StateModel, r: Option<StateModel>)
    requires
        x.wf(),
        r is Some ==> parse_accepts(encode_model(x), r->Some_0),
        r is None ==> forall|v: StateModel| !parse_accepts(encode_model(x), v),
    ensures
        r is Some,
        r->Some_0.token == x.token,
        r->Some_0.token_expires == x.token_expires,
        r->Some_0.refresh_token == x.refresh_token,
        r->Some_0.refresh_expires == x.refresh_expires,
        r->Some_0.written_at == x.written_at,
{
    assert(parse_accepts(encode_model(x), x));
    lemma_encode_injective(r->Some_0, x);
}

impl NordigenState {
    /// The exact text under which this record is persisted.
    #[verifier::rlimit(100)]
    #[verifier::spinoff_prover]
    pub fn encode(&self) -> (r: String)
        requires
            self.wf(),
        ensures
            r@ == encode_model(self@),
    {
        let mut out = String::new();
        out.append(lit_head());
        out.append(self.token.as_str());
        out.append(lit_token_expires());
        let te = u64_to_string(self.token_expires as u64);
        out.append(te.as_str());
        out.append(lit_refresh_token());
        out.append(self.refresh_token.as_str());
        out.append(lit_refresh_expires());
        let re = u64_to_string(self.refresh_expires as u64);
        out.append(re.as_str());
        out.append(lit_written_at());
        let wa = u64_to_string(self.written_at);
        out.append(wa.as_str());
        out.append(lit_tail());
        proof {
            assert(out@ =~= encode_model(self@));
        }
        out
    }

    /// Decode a stored text.  Returns the record whose encoding the text
    /// is, and `None` exactly when the text encodes no well-formed record.
    #[verifier::rlimit(100)]
    pub fn parse(text: &str) -> (r: Option<NordigenState>)
        ensures
            r is Some ==> parse_accepts(text@, r->Some_0@),
            r is None ==> forall|v: StateModel| !parse_accepts(text@, v),
    {
        let n = text.unicode_len();
        let l0 = lit_head();
        let l1 = lit_token_expires();
        let l2 = lit_refresh_token();
        let l3 = lit_refresh_expires();
        let l4 = lit_written_at();
        let l5 = lit_tail();
        if !expect_lit(text, 0, l0) {
            proof {
                assert forall|v: StateModel| !parse_accepts(text@, v) by {
                    if parse_accepts(text@, v) {
                        lemma_encode_parts(v);
                    }
                }
            }
            return None;
        }
        let m0 = l0.unicode_len();
        let (token, q1) = match scan_quoted(text, m0) {
            Some(p) => p,
            None => {
                proof {
                    assert forall|v: StateModel| !parse_accepts(text@, v) by {
                        if parse_accepts(text@, v) {
                            lemma_encode_parts(v);
                        }
                    }
                }
                return None;
            }
        };
        if !expect_lit(text, q1, l1) {
            proof {
                assert forall|v: StateModel| !parse_accepts(text@, v) by {
                    if parse_accepts(text@, v) {
                        lemma_stage_token(v, text@, q1 as int);
                        lemma_encode_parts(v);
                    }
                }
            }
            return None;
        }
        let pos_te = q1 + l1.unicode_len();
        let (te_val, te_end) = match parse_number(text, pos_te) {
            Some(p) => p,
            None => {
                proof {
                    assert forall|v: StateModel| !parse_accepts(text@, v) by {
                        if parse_accepts(text@, v) {
                            lemma_stage_token(v, text@, q1 as int);
                            lemma_encode_parts(v);
                            assert(digit_run_ok(text@, pos_te as int, p_te_end(v)));
                            assert(num_val(text@.subrange(pos_te as int, p_te_end(v)))
                                == v.token_expires);
                        }
                    }
                }
                return None;
            }
        };
        if te_val > u32::MAX as u64 {
            proof {
                assert forall|v: StateModel| !parse_accepts(text@, v) by {
                    if parse_accepts(text@, v) {
                        lemma_stage_te(v, text@, q1 as int, te_end as int);
                    }
                }
            }
            return None;
        }
        if !expect_lit(text, te_end, l2) {
            proof {
                assert forall|v: StateModel| !parse_accepts(text@, v) by {
                    if parse_accepts(text@, v) {
                        lemma_stage_te(v, text@, q1 as int, te_end as int);
                        lemma_encode_parts(v);
                    }
                }
            }
            return None;
        }
        let pos_ref = te_end + l2.unicode_len();
        let (refresh, q2) = match scan_quoted(text, pos_ref) {
            Some(p) => p,
            None => {
                proof {
                    assert forall|v: StateModel| !parse_accepts(text@, v) by {
                        if parse_accepts(text@, v) {
                            lemma_stage_te(v, text@, q1 as int, te_end as int);
                            lemma_encode_parts(v);
                            assert(string_end_ok(text@, pos_ref as int, p_ref_end(v)));
                        }
                    }
                }
                return None;
            }
        };
        if !expect_lit(text, q2, l3) {
            proof {
                assert forall|v: StateModel| !parse_accepts(text@, v) by {
                    if parse_accepts(text@, v) {
                        lemma_stage_ref(v, text@, q1 as int, te_end as int, q2 as int);
                        lemma_encode_parts(v);
                    }
                }
            }
            return None;
        }
        let pos_re = q2 + l3.unicode_len();
        let (re_val, re_end) = match parse_number(text, pos_re) {
            Some(p) => p,
            None => {
                proof {
                    assert forall|v: StateModel| !parse_accepts(text@, v) by {
                        if parse_accepts(text@, v) {
                            lemma_stage_ref(v, text@, q1 as int, te_end as int, q2 as int);
                            lemma_encode_parts(v);
                            assert(digit_run_ok(text@, pos_re as int, p_re_end(v)));
                            assert(num_val(text@.subrange(pos_re as int, p_re_end(v)))
                                == v.refresh_expires);
                        }
                    }
                }
                return None;
            }
        };
        if re_val > u32::MAX as u64 {
            proof {
                assert forall|v: StateModel| !parse_accepts(text@, v) by {
                    if parse_accepts(text@, v) {
                        lemma_stage_re(v, text@, q1 as int, te_end as int, q2 as int, re_end as int);
                    }
                }
            }
            return None;
        }
        if !expect_lit(text, re_end, l4) {
            proof {
                assert forall|v: StateModel| !parse_accepts(text@, v) by {
                    if parse_accepts(text@, v) {
                        lemma_stage_re(v, text@, q1 as int, te_end as int, q2 as int, re_end as int);
                        lemma_encode_parts(v);
                    }
                }
            }
            return None;
        }
        let pos_wa = re_end + l4.unicode_len();
        let (wa_val, wa_end) = match parse_number(text, pos_wa) {
            Some(p) => p,
            None => {
                proof {
                    assert forall|v: StateModel| !parse_accepts(text@, v) by {
                        if parse_accepts(text@, v) {
                            lemma_stage_re(
                                v, text@, q1 as int, te_end as int, q2 as int, re_end as int,
                            );
                            lemma_encode_parts(v);
                            assert(digit_run_ok(text@, pos_wa as int, p_wa_end(v)));
                            assert(num_val(text@.subrange(pos_wa as int, p_wa_end(v)))
                                == v.written_at);
                        }
                    }
                }
                return None;
            }
        };
        if !expect_lit(text, wa_end, l5) {
            proof {
                assert forall|v: StateModel| !parse_accepts(text@, v) by {
                    if parse_accepts(text@, v) {
                        lemma_stage_wa(
                            v, text@, q1 as int, te_end as int, q2 as int, re_end as int,
                            wa_end as int,
                        );
                        lemma_encode_parts(v);
                    }
                }
            }
            return None;
        }
        if wa_end + l5.unicode_len() != n {
            proof {
                assert forall|v: StateModel| !parse_accepts(text@, v) by {
                    if parse_accepts(text@, v) {
                        lemma_stage_wa(
                            v, text@, q1 as int, te_end as int, q2 as int, re_end as int,
                            wa_end as int,
                        );
                        lemma_encode_parts(v);
                    }
                }
            }
            return None;
        }
        if wa_val.checked_add(te_val).is_none() {
            proof {
                assert forall|v: StateModel| !parse_accepts(text@, v) by {
                    if parse_accepts(text@, v) {
                        lemma_stage_wa(
                            v, text@, q1 as int, te_end as int, q2 as int, re_end as int,
                            wa_end as int,
                        );
                    }
                }
            }
            return None;
        }
        if wa_val.checked_add(re_val).is_none() {
            proof {
                assert forall|v: StateModel| !parse_accepts(text@, v) by {
                    if parse_accepts(text@, v) {
                        lemma_stage_wa(
                            v, text@, q1 as int, te_end as int, q2 as int, re_end as int,
                            wa_end as int,
                        );
                    }
                }
            }
            return None;
        }
        let result = NordigenState {
            token,
            token_expires: te_val as u32,
            refresh_token: refresh,
            refresh_expires: re_val as u32,
            written_at: wa_val,
        };
        proof {
            let s = text@;
            let vr = result@;
            lemma_scanned_token_ok(s, m0 as int, q1 as int);
            lemma_scanned_token_ok(s, pos_ref as int, q2 as int);
            lemma_run_is_dec(s, pos_te as int, te_end as int);
            lemma_run_is_dec(s, pos_re as int, re_end as int);
            lemma_run_is_dec(s, pos_wa as int, wa_end as int);
            assert(vr.wf());
            assert(p_tok_end(vr) == q1);
            assert(p_te(vr) == pos_te);
            assert(te_digits(vr) == s.subrange(pos_te as int, te_end as int));
            assert(p_te_end(vr) == te_end);
            assert(p_ref(vr) == pos_ref);
            assert(p_ref_end(vr) == q2);
            assert(p_re(vr) == pos_re);
            assert(re_digits(vr) == s.subrange(pos_re as int, re_end as int));
            assert(p_re_end(vr) == re_end);
            assert(p_wa(vr) == pos_wa);
            assert(wa_digits(vr) == s.subrange(pos_wa as int, wa_end as int));
            assert(p_wa_end(vr) == wa_end);
            assert(s.len() == p_wa_end(vr) + lit_tail_s().len());
            assert(s.subrange(p_wa_end(vr), s.len() as int) == lit_tail_s());
            lemma_compose(s, vr);
        }
        Some(result)
    }
}

} // verus!
