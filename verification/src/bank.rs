//! The persisted bank-consent record and its codec.
//!
//! A consent record is created once a bank's callback handshake has
//! completed and the returned reference matched the issued one.  It is never
//! mutated; a new consent supersedes it.  Its stored form mirrors the
//! credential record: three quoted fields in a fixed order, accepted back if
//! and only if the text is the encoding of a well-formed record.

use crate::text::{
    expect_lit, lemma_scanned_token_ok, lemma_string_end_unique, lemma_subrange_all, scan_quoted,
    string_end_ok, token_char_ok, token_ok,
};
use vstd::prelude::*;

verus! {

/// Mathematical model of a bank-consent record.
pub struct BankModel {
    pub bank_id: Seq<char>,
    pub requisition_id: Seq<char>,
    pub requisition_ref: Seq<char>,
}

impl BankModel {
    pub open spec fn wf(self) -> bool {
        &&& token_ok(self.bank_id)
        &&& token_ok(self.requisition_id)
        &&& token_ok(self.requisition_ref)
    }
}

/// A persisted bank consent: the bank, the provider's requisition for it,
/// and the reference that the callback echoed back.
pub struct BankAuthState {
    pub bank_id: String,
    pub requisition_id: String,
    pub requisition_ref: String,
}

impl View for BankAuthState {
    type V = BankModel;

    open spec fn view(&self) -> BankModel {
        BankModel {
            bank_id: self.bank_id@,
            requisition_id: self.requisition_id@,
            requisition_ref: self.requisition_ref@,
        }
    }
}

pub open spec fn blit_head_s() -> Seq<char> {
    "{\n  \"bank_id\": \""@
}

pub open spec fn blit_requisition_id_s() -> Seq<char> {
    "\",\n  \"requisition_id\": \""@
}

pub open spec fn blit_requisition_ref_s() -> Seq<char> {
    "\",\n  \"requisition_ref\": \""@
}

pub open spec fn blit_tail_s() -> Seq<char> {
    "\"\n}"@
}

fn blit_head() -> (r: &'static str)
    ensures
        r@ == blit_head_s(),
{
    "{\n  \"bank_id\": \""
}

fn blit_requisition_id() -> (r: &'static str)
    ensures
        r@ == blit_requisition_id_s(),
{
    "\",\n  \"requisition_id\": \""
}

fn blit_requisition_ref() -> (r: &'static str)
    ensures
        r@ == blit_requisition_ref_s(),
{
    "\",\n  \"requisition_ref\": \""
}

fn blit_tail() -> (r: &'static str)
    ensures
        r@ == blit_tail_s(),
{
    "\"\n}"
}

// The suffixes of the stored text, innermost first.
spec fn btail_ref(v: BankModel) -> Seq<char> {
    v.requisition_ref + blit_tail_s()
}

spec fn btail_ref_lit(v: BankModel) -> Seq<char> {
    blit_requisition_ref_s() + btail_ref(v)
}

spec fn btail_rq(v: BankModel) -> Seq<char> {
    v.requisition_id + btail_ref_lit(v)
}

spec fn btail_rq_lit(v: BankModel) -> Seq<char> {
    blit_requisition_id_s() + btail_rq(v)
}

spec fn btail_bank(v: BankModel) -> Seq<char> {
    v.bank_id + btail_rq_lit(v)
}

/// The stored text of a well-formed consent record.
pub open spec fn encode_bank_model(v: BankModel) -> Seq<char> {
    blit_head_s() + (v.bank_id + (blit_requisition_id_s() + (v.requisition_id
        + (blit_requisition_ref_s() + (v.requisition_ref + blit_tail_s())))))
}

// Landmark positions inside `encode_bank_model(v)`.
spec fn b_bank_end(v: BankModel) -> int {
    blit_head_s().len() + v.bank_id.len() as int
}

spec fn b_rq(v: BankModel) -> int {
    b_bank_end(v) + blit_requisition_id_s().len()
}

spec fn b_rq_end(v: BankModel) -> int {
    b_rq(v) + v.requisition_id.len()
}

spec fn b_ref(v: BankModel) -> int {
    b_rq_end(v) + blit_requisition_ref_s().len()
}

spec fn b_ref_end(v: BankModel) -> int {
    b_ref(v) + v.requisition_ref.len()
}

proof fn lemma_blit_facts()
    ensures
        blit_head_s().len() >= 1,
        blit_requisition_id_s().len() >= 1,
        blit_requisition_id_s()[0] == '"',
        blit_requisition_ref_s().len() >= 1,
        blit_requisition_ref_s()[0] == '"',
        blit_tail_s().len() >= 1,
        blit_tail_s()[0] == '"',
{
    reveal_strlit("{\n  \"bank_id\": \"");
    reveal_strlit("\",\n  \"requisition_id\": \"");
    reveal_strlit("\",\n  \"requisition_ref\": \"");
    reveal_strlit("\"\n}");
}

/// Where each part of `encode_bank_model(v)` stands.
#[verifier::spinoff_prover]
proof fn lemma_bank_placement(v: BankModel)
    ensures
        encode_bank_model(v).len() == b_ref_end(v) + blit_tail_s().len(),
        encode_bank_model(v).subrange(0, blit_head_s().len() as int) == blit_head_s(),
        encode_bank_model(v).subrange(blit_head_s().len() as int, b_bank_end(v)) == v.bank_id,
        encode_bank_model(v).subrange(b_bank_end(v), b_rq(v)) == blit_requisition_id_s(),
        encode_bank_model(v).subrange(b_rq(v), b_rq_end(v)) == v.requisition_id,
        encode_bank_model(v).subrange(b_rq_end(v), b_ref(v)) == blit_requisition_ref_s(),
        encode_bank_model(v).subrange(b_ref(v), b_ref_end(v)) == v.requisition_ref,
        encode_bank_model(v).subrange(b_ref_end(v), encode_bank_model(v).len() as int)
            == blit_tail_s(),
{
    let s = encode_bank_model(v);
    lemma_subrange_all(s);
    crate::text::lemma_unpeel(s, 0, blit_head_s(), btail_bank(v));
    crate::text::lemma_unpeel(s, blit_head_s().len() as int, v.bank_id, btail_rq_lit(v));
    crate::text::lemma_unpeel(s, b_bank_end(v), blit_requisition_id_s(), btail_rq(v));
    crate::text::lemma_unpeel(s, b_rq(v), v.requisition_id, btail_ref_lit(v));
    crate::text::lemma_unpeel(s, b_rq_end(v), blit_requisition_ref_s(), btail_ref(v));
    crate::text::lemma_unpeel(s, b_ref(v), v.requisition_ref, blit_tail_s());
}

/// Where each part of `encode_bank_model(v)` stands, and that each quoted
/// field scans as one.
#[verifier::rlimit(100)]
#[verifier::spinoff_prover]
proof fn lemma_bank_parts(v: BankModel)
    requires
        v.wf(),
    ensures
        encode_bank_model(v).len() == b_ref_end(v) + blit_tail_s().len(),
        encode_bank_model(v).subrange(0, blit_head_s().len() as int) == blit_head_s(),
        string_end_ok(encode_bank_model(v), blit_head_s().len() as int, b_bank_end(v)),
        encode_bank_model(v).subrange(blit_head_s().len() as int, b_bank_end(v)) == v.bank_id,
        encode_bank_model(v).subrange(b_bank_end(v), b_rq(v)) == blit_requisition_id_s(),
        string_end_ok(encode_bank_model(v), b_rq(v), b_rq_end(v)),
        encode_bank_model(v).subrange(b_rq(v), b_rq_end(v)) == v.requisition_id,
        encode_bank_model(v).subrange(b_rq_end(v), b_ref(v)) == blit_requisition_ref_s(),
        string_end_ok(encode_bank_model(v), b_ref(v), b_ref_end(v)),
        encode_bank_model(v).subrange(b_ref(v), b_ref_end(v)) == v.requisition_ref,
        encode_bank_model(v).subrange(b_ref_end(v), encode_bank_model(v).len() as int)
            == blit_tail_s(),
{
    lemma_blit_facts();
    let s = encode_bank_model(v);
    lemma_bank_placement(v);

    assert(s[b_bank_end(v)] == '"') by {
        assert(s.subrange(b_bank_end(v), b_rq(v))[0] == blit_requisition_id_s()[0]);
    }
    assert forall|k: int| blit_head_s().len() <= k < b_bank_end(v) implies token_char_ok(
        #[trigger] s[k],
    ) by {
        assert(s.subrange(blit_head_s().len() as int, b_bank_end(v))[k - blit_head_s().len()]
            == v.bank_id[k - blit_head_s().len()]);
    }
    assert(s[b_rq_end(v)] == '"') by {
        assert(s.subrange(b_rq_end(v), b_ref(v))[0] == blit_requisition_ref_s()[0]);
    }
    assert forall|k: int| b_rq(v) <= k < b_rq_end(v) implies token_char_ok(#[trigger] s[k]) by {
        assert(s.subrange(b_rq(v), b_rq_end(v))[k - b_rq(v)] == v.requisition_id[k - b_rq(v)]);
    }
    assert(s[b_ref_end(v)] == '"') by {
        assert(s.subrange(b_ref_end(v), s.len() as int)[0] == blit_tail_s()[0]);
    }
    assert forall|k: int| b_ref(v) <= k < b_ref_end(v) implies token_char_ok(#[trigger] s[k]) by {
        assert(s.subrange(b_ref(v), b_ref_end(v))[k - b_ref(v)] == v.requisition_ref[k - b_ref(v)]);
    }
}

/// The converse: a text whose parts all stand in their places is the
/// encoding.
proof fn lemma_bank_compose(s: Seq<char>, v: BankModel)
    requires
        s.len() == b_ref_end(v) + blit_tail_s().len(),
        s.subrange(0, blit_head_s().len() as int) == blit_head_s(),
        s.subrange(blit_head_s().len() as int, b_bank_end(v)) == v.bank_id,
        s.subrange(b_bank_end(v), b_rq(v)) == blit_requisition_id_s(),
        s.subrange(b_rq(v), b_rq_end(v)) == v.requisition_id,
        s.subrange(b_rq_end(v), b_ref(v)) == blit_requisition_ref_s(),
        s.subrange(b_ref(v), b_ref_end(v)) == v.requisition_ref,
        s.subrange(b_ref_end(v), s.len() as int) == blit_tail_s(),
    ensures
        s == encode_bank_model(v),
{
    crate::text::lemma_peel(s, b_ref(v), v.requisition_ref);
    crate::text::lemma_peel(s, b_rq_end(v), blit_requisition_ref_s());
    crate::text::lemma_peel(s, b_rq(v), v.requisition_id);
    crate::text::lemma_peel(s, b_bank_end(v), blit_requisition_id_s());
    crate::text::lemma_peel(s, blit_head_s().len() as int, v.bank_id);
    crate::text::lemma_peel(s, 0, blit_head_s());
    lemma_subrange_all(s);
}

proof fn lemma_bank_stage_id(v: BankModel, s: Seq<char>, q1: int)
    requires
        v.wf(),
        s == encode_bank_model(v),
        string_end_ok(s, blit_head_s().len() as int, q1),
    ensures
        q1 == b_bank_end(v),
        s.subrange(blit_head_s().len() as int, q1) == v.bank_id,
{
    lemma_bank_parts(v);
    lemma_string_end_unique(s, blit_head_s().len() as int, q1, b_bank_end(v));
}

proof fn lemma_bank_stage_rq(v: BankModel, s: Seq<char>, q1: int, q2: int)
    requires
        v.wf(),
        s == encode_bank_model(v),
        string_end_ok(s, blit_head_s().len() as int, q1),
        string_end_ok(s, q1 + blit_requisition_id_s().len(), q2),
    ensures
        q1 == b_bank_end(v),
        q2 == b_rq_end(v),
        s.subrange(q1 + blit_requisition_id_s().len() as int, q2) == v.requisition_id,
{
    lemma_bank_stage_id(v, s, q1);
    lemma_bank_parts(v);
    lemma_string_end_unique(s, b_rq(v), q2, b_rq_end(v));
}

proof fn lemma_bank_stage_ref(v: BankModel, s: Seq<char>, q1: int, q2: int, q3: int)
    requires
        v.wf(),
        s == encode_bank_model(v),
        string_end_ok(s, blit_head_s().len() as int, q1),
        string_end_ok(s, q1 + blit_requisition_id_s().len(), q2),
        string_end_ok(s, q2 + blit_requisition_ref_s().len(), q3),
    ensures
        q1 == b_bank_end(v),
        q2 == b_rq_end(v),
        q3 == b_ref_end(v),
        s.subrange(q2 + blit_requisition_ref_s().len() as int, q3) == v.requisition_ref,
{
    lemma_bank_stage_rq(v, s, q1, q2);
    lemma_bank_parts(v);
    lemma_string_end_unique(s, b_ref(v), q3, b_ref_end(v));
}

/// Whether a stored text stands for the consent record `v`.
pub open spec fn bank_parse_accepts(s: Seq<char>, v: BankModel) -> bool {
    v.wf() && s == encode_bank_model(v)
}

/// No two well-formed consent records share a stored text.
pub proof fn lemma_bank_encode_injective(v1: BankModel, v2: BankModel)
    requires
        v1.wf(),
        v2.wf(),
        encode_bank_model(v1) == encode_bank_model(v2),
    ensures
        v1.bank_id == v2.bank_id,
        v1.requisition_id == v2.requisition_id,
        v1.requisition_ref == v2.requisition_ref,
{
    let s = encode_bank_model(v1);
    lemma_bank_parts(v2);
    lemma_bank_stage_id(v1, s, b_bank_end(v2));
    lemma_bank_stage_rq(v1, s, b_bank_end(v2), b_rq_end(v2));
    lemma_bank_stage_ref(v1, s, b_bank_end(v2), b_rq_end(v2), b_ref_end(v2));
}

/// The save/load round trip for consent records: whatever `parse` makes of
/// the text under which a well-formed record `x` was saved, it is `x`.
pub proof fn lemma_bank_round_trip(x: BankModel, r: Option<BankModel>)
    requires
        x.wf(),
        r is Some ==> bank_parse_accepts(encode_bank_model(x), r->Some_0),
        r is None ==> forall|v: BankModel| !bank_parse_accepts(encode_bank_model(x), v),
    ensures
        r is Some,
        r->Some_0.bank_id == x.bank_id,
        r->Some_0.requisition_id == x.requisition_id,
        r->Some_0.requisition_ref == x.requisition_ref,
{
    assert(bank_parse_accepts(encode_bank_model(x), x));
    lemma_bank_encode_injective(r->Some_0, x);
}

impl BankAuthState {
    pub open spec fn wf(&self) -> bool {
        self@.wf()
    }

    /// Build the record for a completed consent.
    pub fn new(bank_id: String, requisition_id: String, requisition_ref: String) -> (r:
        BankAuthState)
        requires
            token_ok(bank_id@),
            token_ok(requisition_id@),
            token_ok(requisition_ref@),
        ensures
            r@ == (BankModel {
                bank_id: bank_id@,
                requisition_id: requisition_id@,
                requisition_ref: requisition_ref@,
            }),
            r.wf(),
    {
        BankAuthState { bank_id, requisition_id, requisition_ref }
    }

    /// The exact text under which this record is persisted.
    #[verifier::spinoff_prover]
    pub fn encode(&self) -> (r: String)
        requires
            self.wf(),
        ensures
            r@ == encode_bank_model(self@),
    {
        let mut out = String::new();
        out.append(blit_head());
        out.append(self.bank_id.as_str());
        out.append(blit_requisition_id());
        out.append(self.requisition_id.as_str());
        out.append(blit_requisition_ref());
        out.append(self.requisition_ref.as_str());
        out.append(blit_tail());
        proof {
            assert(out@ =~= encode_bank_model(self@));
        }
        out
    }

    /// Decode a stored text.  Returns the consent record whose encoding the
    /// text is, and `None` exactly when the text encodes no well-formed
    /// record.
    #[verifier::rlimit(50)]
    pub fn parse(text: &str) -> (r: Option<BankAuthState>)
        ensures
            r is Some ==> bank_parse_accepts(text@, r->Some_0@),
            r is None ==> forall|v: BankModel| !bank_parse_accepts(text@, v),
    {
        let n = text.unicode_len();
        let b0 = blit_head();
        let b1 = blit_requisition_id();
        let b2 = blit_requisition_ref();
        let b3 = blit_tail();
        if !expect_lit(text, 0, b0) {
            proof {
                assert forall|v: BankModel| !bank_parse_accepts(text@, v) by {
                    if bank_parse_accepts(text@, v) {
                        lemma_bank_parts(v);
                    }
                }
            }
            return None;
        }
        let m0 = b0.unicode_len();
        let (bank_id, q1) = match scan_quoted(text, m0) {
            Some(p) => p,
            None => {
                proof {
                    assert forall|v: BankModel| !bank_parse_accepts(text@, v) by {
                        if bank_parse_accepts(text@, v) {
                            lemma_bank_parts(v);
                        }
                    }
                }
                return None;
            }
        };
        if !expect_lit(text, q1, b1) {
            proof {
                assert forall|v: BankModel| !bank_parse_accepts(text@, v) by {
                    if bank_parse_accepts(text@, v) {
                        lemma_bank_stage_id(v, text@, q1 as int);
                        lemma_bank_parts(v);
                    }
                }
            }
            return None;
        }
        let pos_rq = q1 + b1.unicode_len();
        let (requisition_id, q2) = match scan_quoted(text, pos_rq) {
            Some(p) => p,
            None => {
                proof {
                    assert forall|v: BankModel| !bank_parse_accepts(text@, v) by {
                        if bank_parse_accepts(text@, v) {
                            lemma_bank_stage_id(v, text@, q1 as int);
                            lemma_bank_parts(v);
                            assert(string_end_ok(text@, pos_rq as int, b_rq_end(v)));
                        }
                    }
                }
                return None;
            }
        };
        if !expect_lit(text, q2, b2) {
            proof {
                assert forall|v: BankModel| !bank_parse_accepts(text@, v) by {
                    if bank_parse_accepts(text@, v) {
                        lemma_bank_stage_rq(v, text@, q1 as int, q2 as int);
                        lemma_bank_parts(v);
                    }
                }
            }
            return None;
        }
        let pos_ref = q2 + b2.unicode_len();
        let (requisition_ref, q3) = match scan_quoted(text, pos_ref) {
            Some(p) => p,
            None => {
                proof {
                    assert forall|v: BankModel| !bank_parse_accepts(text@, v) by {
                        if bank_parse_accepts(text@, v) {
                            lemma_bank_stage_rq(v, text@, q1 as int, q2 as int);
                            lemma_bank_parts(v);
                            assert(string_end_ok(text@, pos_ref as int, b_ref_end(v)));
                        }
                    }
                }
                return None;
            }
        };
        if !expect_lit(text, q3, b3) {
            proof {
                assert forall|v: BankModel| !bank_parse_accepts(text@, v) by {
                    if bank_parse_accepts(text@, v) {
                        lemma_bank_stage_ref(v, text@, q1 as int, q2 as int, q3 as int);
                        lemma_bank_parts(v);
                    }
                }
            }
            return None;
        }
        if q3 + b3.unicode_len() != n {
            proof {
                assert forall|v: BankModel| !bank_parse_accepts(text@, v) by {
                    if bank_parse_accepts(text@, v) {
                        lemma_bank_stage_ref(v, text@, q1 as int, q2 as int, q3 as int);
                        lemma_bank_parts(v);
                    }
                }
            }
            return None;
        }
        let result = BankAuthState { bank_id, requisition_id, requisition_ref };
        proof {
            let s = text@;
            let vr = result@;
            lemma_scanned_token_ok(s, m0 as int, q1 as int);
            lemma_scanned_token_ok(s, pos_rq as int, q2 as int);
            lemma_scanned_token_ok(s, pos_ref as int, q3 as int);
            assert(vr.wf());
            assert(b_bank_end(vr) == q1);
            assert(b_rq(vr) == pos_rq);
            assert(b_rq_end(vr) == q2);
            assert(b_ref(vr) == pos_ref);
            assert(b_ref_end(vr) == q3);
            assert(s.len() == b_ref_end(vr) + blit_tail_s().len());
            assert(s.subrange(b_ref_end(vr), s.len() as int) == blit_tail_s());
            lemma_bank_compose(s, vr);
        }
        Some(result)
    }
}

} // verus!
