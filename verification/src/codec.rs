//! The vault's binary record format, verified end to end.
//!
//! Every value is encoded with a fixed layout: `u64` as eight little-endian
//! bytes, byte strings and text as a `u64` length followed by the bytes (text
//! as UTF-8), lists as a `u64` count followed by the items, and a credential
//! as its fields in declaration order. Decoding is strict: it accepts exactly
//! the encodings this module produces and consumes the whole input, so the
//! decoders below are proved to invert the encoders.

use vstd::bytes::lemma_auto_spec_u64_to_from_le_bytes;
use vstd::bytes::spec_u64_from_le_bytes;
use vstd::bytes::spec_u64_to_le_bytes;
use vstd::bytes::u64_from_le_bytes;
use vstd::bytes::u64_to_le_bytes;
use vstd::prelude::*;
use vstd::slice::slice_index_get;
use vstd::slice::slice_subrange;
use vstd::slice::slice_to_vec;
use vstd::utf8::decode_utf8;
use vstd::utf8::decode_utf8_encode_utf8;
use vstd::utf8::encode_utf8;
use vstd::utf8::encode_utf8_decode_utf8;
use vstd::utf8::encode_utf8_valid_utf8;
use vstd::utf8::valid_utf8;

use crate::models::pairs_deep_view;
use crate::models::CredView;
use crate::models::Credential;
use crate::models::EncryptedVault;
use crate::models::EntryType;
use crate::models::RecView;

verus! {

// ---------------------------------------------------------------------------
// Spec-level encoders
// ---------------------------------------------------------------------------
pub open spec fn enc_u64(x: u64) -> Seq<u8> {
    spec_u64_to_le_bytes(x)
}

pub open spec fn enc_bytes(b: Seq<u8>) -> Seq<u8> {
    enc_u64(b.len() as u64) + b
}

pub open spec fn enc_str(s: Seq<char>) -> Seq<u8> {
    enc_bytes(encode_utf8(s))
}

pub open spec fn enc_bool(b: bool) -> Seq<u8> {
    seq![
        if b {
            1u8
        } else {
            0u8
        },
    ]
}

pub open spec fn enc_entry_type(t: EntryType) -> Seq<u8> {
    seq![
        match t {
            EntryType::Password => 0u8,
            EntryType::ApiKey => 1u8,
        },
    ]
}

pub open spec fn enc_str_items(l: Seq<Seq<char>>) -> Seq<u8>
    decreases l.len(),
{
    if l.len() == 0 {
        Seq::empty()
    } else {
        enc_str(l[0]) + enc_str_items(l.drop_first())
    }
}

pub open spec fn enc_str_list(l: Seq<Seq<char>>) -> Seq<u8> {
    enc_u64(l.len() as u64) + enc_str_items(l)
}

pub open spec fn enc_pair_items(l: Seq<(Seq<char>, Seq<char>)>) -> Seq<u8>
    decreases l.len(),
{
    if l.len() == 0 {
        Seq::empty()
    } else {
        enc_str(l[0].0) + enc_str(l[0].1) + enc_pair_items(l.drop_first())
    }
}

pub open spec fn enc_pair_list(l: Seq<(Seq<char>, Seq<char>)>) -> Seq<u8> {
    enc_u64(l.len() as u64) + enc_pair_items(l)
}

pub open spec fn enc_cred(c: CredView) -> Seq<u8> {
    enc_str(c.id) + enc_entry_type(c.entry_type) + enc_str(c.service) + enc_str(c.username)
        + enc_bytes(c.secret) + enc_str(c.notes) + enc_str_list(c.tags) + enc_bool(c.is_active)
        + enc_pair_list(c.custom_fields) + enc_u64(c.created_at) + enc_u64(c.updated_at)
}

pub open spec fn enc_cred_items(l: Seq<CredView>) -> Seq<u8>
    decreases l.len(),
{
    if l.len() == 0 {
        Seq::empty()
    } else {
        enc_cred(l[0]) + enc_cred_items(l.drop_first())
    }
}

pub open spec fn enc_repo(l: Seq<CredView>) -> Seq<u8> {
    enc_u64(l.len() as u64) + enc_cred_items(l)
}

pub open spec fn enc_record(r: RecView) -> Seq<u8> {
    enc_bytes(r.salt) + enc_bytes(r.nonce) + enc_bytes(r.ciphertext)
}

// ---------------------------------------------------------------------------
// Length side conditions: every count and length must fit in a u64. Values
// built by executable code always satisfy them, because executable lengths
// are usize.
// ---------------------------------------------------------------------------
pub open spec fn fits_u64(n: int) -> bool {
    0 <= n <= u64::MAX
}

pub open spec fn wf_str(s: Seq<char>) -> bool {
    fits_u64(encode_utf8(s).len() as int)
}

pub open spec fn wf_str_list(l: Seq<Seq<char>>) -> bool {
    &&& fits_u64(l.len() as int)
    &&& forall|i: int| 0 <= i < l.len() ==> wf_str(#[trigger] l[i])
}

pub open spec fn wf_pair_list(l: Seq<(Seq<char>, Seq<char>)>) -> bool {
    &&& fits_u64(l.len() as int)
    &&& forall|i: int| 0 <= i < l.len() ==> wf_str(#[trigger] l[i].0) && wf_str(l[i].1)
}

pub open spec fn wf_cred(c: CredView) -> bool {
    &&& wf_str(c.id)
    &&& wf_str(c.service)
    &&& wf_str(c.username)
    &&& fits_u64(c.secret.len() as int)
    &&& wf_str(c.notes)
    &&& wf_str_list(c.tags)
    &&& wf_pair_list(c.custom_fields)
}

pub open spec fn wf_repo(l: Seq<CredView>) -> bool {
    &&& fits_u64(l.len() as int)
    &&& forall|i: int| 0 <= i < l.len() ==> wf_cred(#[trigger] l[i])
}

pub open spec fn wf_record(r: RecView) -> bool {
    &&& fits_u64(r.salt.len() as int)
    &&& fits_u64(r.nonce.len() as int)
    &&& fits_u64(r.ciphertext.len() as int)
}

// ---------------------------------------------------------------------------
// Spec-level decoders. Each reads a prefix of `b` and yields the value and
// the number of bytes consumed.
// ---------------------------------------------------------------------------
pub open spec fn dec_u64(b: Seq<u8>) -> Option<(u64, int)> {
    if b.len() >= 8 {
        Some((spec_u64_from_le_bytes(b.subrange(0, 8)), 8int))
    } else {
        None
    }
}

pub open spec fn dec_bytes(b: Seq<u8>) -> Option<(Seq<u8>, int)> {
    match dec_u64(b) {
        Some((n, p)) => {
            if n as int <= b.len() - p {
                Some((b.subrange(p, p + n as int), p + n as int))
            } else {
                None
            }
        },
        None => None,
    }
}

pub open spec fn dec_str(b: Seq<u8>) -> Option<(Seq<char>, int)> {
    match dec_bytes(b) {
        Some((bs, p)) => {
            if valid_utf8(bs) {
                Some((decode_utf8(bs), p))
            } else {
                None
            }
        },
        None => None,
    }
}

pub open spec fn dec_bool(b: Seq<u8>) -> Option<(bool, int)> {
    if b.len() >= 1 && (b[0] == 0 || b[0] == 1) {
        Some((b[0] == 1, 1int))
    } else {
        None
    }
}

pub open spec fn dec_entry_type(b: Seq<u8>) -> Option<(EntryType, int)> {
    if b.len() >= 1 && b[0] == 0 {
        Some((EntryType::Password, 1int))
    } else if b.len() >= 1 && b[0] == 1 {
        Some((EntryType::ApiKey, 1int))
    } else {
        None
    }
}

pub open spec fn dec_str_items(b: Seq<u8>, n: nat) -> Option<(Seq<Seq<char>>, int)>
    decreases n,
{
    if n == 0 {
        Some((Seq::empty(), 0int))
    } else {
        match dec_str(b) {
            Some((s, p)) => match dec_str_items(b.skip(p), (n - 1) as nat) {
                Some((l, q)) => Some((seq![s] + l, p + q)),
                None => None,
            },
            None => None,
        }
    }
}

pub open spec fn dec_str_list(b: Seq<u8>) -> Option<(Seq<Seq<char>>, int)> {
    match dec_u64(b) {
        Some((n, p)) => match dec_str_items(b.skip(p), n as nat) {
            Some((l, q)) => Some((l, p + q)),
            None => None,
        },
        None => None,
    }
}

pub open spec fn dec_pair_items(b: Seq<u8>, n: nat) -> Option<(Seq<(Seq<char>, Seq<char>)>, int)>
    decreases n,
{
    if n == 0 {
        Some((Seq::empty(), 0int))
    } else {
        match dec_str(b) {
            Some((k, p1)) => {
                let b1 = b.skip(p1);
                match dec_str(b1) {
                    Some((v, p2)) => {
                        let b2 = b1.skip(p2);
                        match dec_pair_items(b2, (n - 1) as nat) {
                            Some((l, q)) => Some((seq![(k, v)] + l, p1 + p2 + q)),
                            None => None,
                        }
                    },
                    None => None,
                }
            },
            None => None,
        }
    }
}

pub open spec fn dec_pair_list(b: Seq<u8>) -> Option<(Seq<(Seq<char>, Seq<char>)>, int)> {
    match dec_u64(b) {
        Some((n, p)) => match dec_pair_items(b.skip(p), n as nat) {
            Some((l, q)) => Some((l, p + q)),
            None => None,
        },
        None => None,
    }
}

pub open spec fn dec_cred(b: Seq<u8>) -> Option<(CredView, int)> {
    match dec_str(b) {
        None => None,
        Some((id, p1)) => {
            let b1 = b.skip(p1);
            match dec_entry_type(b1) {
                None => None,
                Some((entry_type, p2)) => {
                    let b2 = b1.skip(p2);
                    match dec_str(b2) {
                        None => None,
                        Some((service, p3)) => {
                            let b3 = b2.skip(p3);
                            match dec_str(b3) {
                                None => None,
                                Some((username, p4)) => {
                                    let b4 = b3.skip(p4);
                                    match dec_bytes(b4) {
                                        None => None,
                                        Some((secret, p5)) => {
                                            let b5 = b4.skip(p5);
                                            match dec_str(b5) {
                                                None => None,
                                                Some((notes, p6)) => {
                                                    let b6 = b5.skip(p6);
                                                    match dec_str_list(b6) {
                                                        None => None,
                                                        Some((tags, p7)) => {
                                                            let b7 = b6.skip(p7);
                                                            match dec_bool(b7) {
                                                                None => None,
                                                                Some((is_active, p8)) => {
                                                                    let b8 = b7.skip(p8);
                                                                    match dec_pair_list(b8) {
                                                                        None => None,
                                                                        Some((custom_fields, p9)) => {
                                                                            let b9 = b8.skip(p9);
                                                                            match dec_u64(b9) {
                                                                                None => None,
                                                                                Some((created_at, p10)) => {
                                                                                    let b10 = b9.skip(p10);
                                                                                    match dec_u64(b10) {
                                                                                        None => None,
                                                                                        Some((updated_at, p11)) => Some(
                                                                                            (
                                                                                                CredView {
                                                                                                    id,
                                                                                                    entry_type,
                                                                                                    service,
                                                                                                    username,
                                                                                                    secret,
                                                                                                    notes,
                                                                                                    tags,
                                                                                                    is_active,
                                                                                                    custom_fields,
                                                                                                    created_at,
                                                                                                    updated_at,
                                                                                                },
                                                                                                p1 + p2 + p3 + p4 + p5
                                                                                                    + p6 + p7 + p8 + p9
                                                                                                    + p10 + p11,
                                                                                            ),
                                                                                        ),
                                                                                    }
                                                                                },
                                                                            }
                                                                        },
                                                                    }
                                                                },
                                                            }
                                                        },
                                                    }
                                                },
                                            }
                                        },
                                    }
                                },
                            }
                        },
                    }
                },
            }
        },
    }
}

pub open spec fn dec_cred_items(b: Seq<u8>, n: nat) -> Option<(Seq<CredView>, int)>
    decreases n,
{
    if n == 0 {
        Some((Seq::empty(), 0int))
    } else {
        match dec_cred(b) {
            Some((c, p)) => match dec_cred_items(b.skip(p), (n - 1) as nat) {
                Some((l, q)) => Some((seq![c] + l, p + q)),
                None => None,
            },
            None => None,
        }
    }
}

/// The credential set a byte string encodes, if it is exactly one encoding.
pub open spec fn repo_of_bytes(b: Seq<u8>) -> Option<Seq<CredView>> {
    match dec_u64(b) {
        Some((n, p)) => match dec_cred_items(b.skip(p), n as nat) {
            Some((l, q)) => {
                if p + q == b.len() {
                    Some(l)
                } else {
                    None
                }
            },
            None => None,
        },
        None => None,
    }
}

/// The vault record a byte string encodes, if it is exactly one encoding.
pub open spec fn rec_of_bytes(b: Seq<u8>) -> Option<RecView> {
    match dec_bytes(b) {
        None => None,
        Some((salt, p1)) => {
            let b1 = b.skip(p1);
            match dec_bytes(b1) {
                None => None,
                Some((nonce, p2)) => {
                    let b2 = b1.skip(p2);
                    match dec_bytes(b2) {
                        None => None,
                        Some((ciphertext, p3)) => {
                            if p1 + p2 + p3 == b.len() {
                                Some(RecView { salt, nonce, ciphertext })
                            } else {
                                None
                            }
                        },
                    }
                },
            }
        },
    }
}

// ---------------------------------------------------------------------------
// Round-trip lemmas: each decoder inverts its encoder, also in front of any
// trailing bytes.
// ---------------------------------------------------------------------------
pub proof fn lemma_dec_u64(x: u64, rest: Seq<u8>)
    ensures
        enc_u64(x).len() == 8,
        dec_u64(enc_u64(x) + rest) == Some((x, 8int)),
{
    lemma_auto_spec_u64_to_from_le_bytes();
    assert((enc_u64(x) + rest).subrange(0, 8) =~= enc_u64(x));
}

pub proof fn lemma_dec_bytes(bs: Seq<u8>, rest: Seq<u8>)
    requires
        fits_u64(bs.len() as int),
    ensures
        enc_bytes(bs).len() == 8 + bs.len(),
        dec_bytes(enc_bytes(bs) + rest) == Some((bs, 8 + bs.len() as int)),
{
    let b = enc_bytes(bs) + rest;
    lemma_dec_u64(bs.len() as u64, bs + rest);
    assert(b =~= enc_u64(bs.len() as u64) + (bs + rest));
    assert(b.subrange(8, 8 + bs.len() as int) =~= bs);
}

pub proof fn lemma_dec_str(s: Seq<char>, rest: Seq<u8>)
    requires
        wf_str(s),
    ensures
        enc_str(s).len() == 8 + encode_utf8(s).len(),
        dec_str(enc_str(s) + rest) == Some((s, 8 + encode_utf8(s).len() as int)),
{
    encode_utf8_valid_utf8(s);
    encode_utf8_decode_utf8(s);
    lemma_dec_bytes(encode_utf8(s), rest);
}

pub proof fn lemma_dec_bool(v: bool, rest: Seq<u8>)
    ensures
        enc_bool(v).len() == 1,
        dec_bool(enc_bool(v) + rest) == Some((v, 1int)),
{
}

pub proof fn lemma_dec_entry_type(t: EntryType, rest: Seq<u8>)
    ensures
        enc_entry_type(t).len() == 1,
        dec_entry_type(enc_entry_type(t) + rest) == Some((t, 1int)),
{
}

pub proof fn lemma_dec_str_items(l: Seq<Seq<char>>, rest: Seq<u8>)
    requires
        forall|i: int| 0 <= i < l.len() ==> wf_str(#[trigger] l[i]),
    ensures
        dec_str_items(enc_str_items(l) + rest, l.len() as nat) == Some(
            (l, enc_str_items(l).len() as int),
        ),
    decreases l.len(),
{
    if l.len() == 0 {
        assert(enc_str_items(l).len() == 0);
        assert(Seq::<Seq<char>>::empty() =~= l);
    } else {
        let s0 = l[0];
        let tail = l.drop_first();
        let b = enc_str_items(l) + rest;
        assert(b =~= enc_str(s0) + (enc_str_items(tail) + rest));
        lemma_dec_str(s0, enc_str_items(tail) + rest);
        let p = enc_str(s0).len() as int;
        assert(b.skip(p) =~= enc_str_items(tail) + rest);
        lemma_dec_str_items(tail, rest);
        assert(seq![s0] + tail =~= l);
    }
}

pub proof fn lemma_dec_pair_items(l: Seq<(Seq<char>, Seq<char>)>, rest: Seq<u8>)
    requires
        forall|i: int| 0 <= i < l.len() ==> wf_str(#[trigger] l[i].0) && wf_str(l[i].1),
    ensures
        dec_pair_items(enc_pair_items(l) + rest, l.len() as nat) == Some(
            (l, enc_pair_items(l).len() as int),
        ),
    decreases l.len(),
{
    if l.len() == 0 {
        assert(enc_pair_items(l).len() == 0);
        assert(Seq::<(Seq<char>, Seq<char>)>::empty() =~= l);
    } else {
        let (k0, v0) = l[0];
        let tail = l.drop_first();
        let b = enc_pair_items(l) + rest;
        let rv = enc_str(v0) + (enc_pair_items(tail) + rest);
        assert(b =~= enc_str(k0) + rv);
        lemma_dec_str(k0, rv);
        let p1 = enc_str(k0).len() as int;
        assert(b.skip(p1) =~= rv);
        lemma_dec_str(v0, enc_pair_items(tail) + rest);
        let p2 = enc_str(v0).len() as int;
        assert(rv.skip(p2) =~= enc_pair_items(tail) + rest);
        lemma_dec_pair_items(tail, rest);
        assert(seq![(k0, v0)] + tail =~= l);
        assert(l[0] == (k0, v0));
    }
}

pub proof fn lemma_dec_str_list(l: Seq<Seq<char>>, rest: Seq<u8>)
    requires
        wf_str_list(l),
    ensures
        dec_str_list(enc_str_list(l) + rest) == Some((l, enc_str_list(l).len() as int)),
{
    let b = enc_str_list(l) + rest;
    lemma_dec_u64(l.len() as u64, enc_str_items(l) + rest);
    assert(b =~= enc_u64(l.len() as u64) + (enc_str_items(l) + rest));
    assert(b.skip(8) =~= enc_str_items(l) + rest);
    lemma_dec_str_items(l, rest);
}

pub proof fn lemma_dec_pair_list(l: Seq<(Seq<char>, Seq<char>)>, rest: Seq<u8>)
    requires
        wf_pair_list(l),
    ensures
        dec_pair_list(enc_pair_list(l) + rest) == Some((l, enc_pair_list(l).len() as int)),
{
    let b = enc_pair_list(l) + rest;
    lemma_dec_u64(l.len() as u64, enc_pair_items(l) + rest);
    assert(b =~= enc_u64(l.len() as u64) + (enc_pair_items(l) + rest));
    assert(b.skip(8) =~= enc_pair_items(l) + rest);
    lemma_dec_pair_items(l, rest);
}

proof fn lemma_dec_cred_assemble(
    c: CredView,
    b: Seq<u8>,
    b1: Seq<u8>,
    b2: Seq<u8>,
    b3: Seq<u8>,
    b4: Seq<u8>,
    b5: Seq<u8>,
    b6: Seq<u8>,
    b7: Seq<u8>,
    b8: Seq<u8>,
    b9: Seq<u8>,
    b10: Seq<u8>,
    p1: int,
    p2: int,
    p3: int,
    p4: int,
    p5: int,
    p6: int,
    p7: int,
    p8: int,
    p9: int,
    p10: int,
    p11: int,
)
    requires
        dec_str(b) == Some((c.id, p1)),
        b1 == b.skip(p1),
        dec_entry_type(b1) == Some((c.entry_type, p2)),
        b2 == b1.skip(p2),
        dec_str(b2) == Some((c.service, p3)),
        b3 == b2.skip(p3),
        dec_str(b3) == Some((c.username, p4)),
        b4 == b3.skip(p4),
        dec_bytes(b4) == Some((c.secret, p5)),
        b5 == b4.skip(p5),
        dec_str(b5) == Some((c.notes, p6)),
        b6 == b5.skip(p6),
        dec_str_list(b6) == Some((c.tags, p7)),
        b7 == b6.skip(p7),
        dec_bool(b7) == Some((c.is_active, p8)),
        b8 == b7.skip(p8),
        dec_pair_list(b8) == Some((c.custom_fields, p9)),
        b9 == b8.skip(p9),
        dec_u64(b9) == Some((c.created_at, p10)),
        b10 == b9.skip(p10),
        dec_u64(b10) == Some((c.updated_at, p11)),
    ensures
        dec_cred(b) == Some((c, p1 + p2 + p3 + p4 + p5 + p6 + p7 + p8 + p9 + p10 + p11)),
{
}

/// Reassociates the credential encoding in front of trailing bytes.
#[verifier::rlimit(100)]
#[verifier::spinoff_prover]
proof fn lemma_cred_reassoc(c: CredView, rest: Seq<u8>)
    ensures
        enc_cred(c) + rest == enc_str(c.id) + (enc_entry_type(c.entry_type) + (enc_str(c.service)
            + (enc_str(c.username) + (enc_bytes(c.secret) + (enc_str(c.notes) + (enc_str_list(
            c.tags,
        ) + (enc_bool(c.is_active) + (enc_pair_list(c.custom_fields) + (enc_u64(c.created_at) + (
        enc_u64(c.updated_at) + rest)))))))))),
{
    let e1 = enc_str(c.id);
    let e2 = enc_entry_type(c.entry_type);
    let e3 = enc_str(c.service);
    let e4 = enc_str(c.username);
    let e5 = enc_bytes(c.secret);
    let e6 = enc_str(c.notes);
    let e7 = enc_str_list(c.tags);
    let e8 = enc_bool(c.is_active);
    let e9 = enc_pair_list(c.custom_fields);
    let e10 = enc_u64(c.created_at);
    let e11 = enc_u64(c.updated_at);
    let l2 = e1 + e2;
    let l3 = l2 + e3;
    let l4 = l3 + e4;
    let l5 = l4 + e5;
    let l6 = l5 + e6;
    let l7 = l6 + e7;
    let l8 = l7 + e8;
    let l9 = l8 + e9;
    let l10 = l9 + e10;
    let l11 = l10 + e11;
    let r11 = e11 + rest;
    let r10 = e10 + r11;
    let r9 = e9 + r10;
    let r8 = e8 + r9;
    let r7 = e7 + r8;
    let r6 = e6 + r7;
    let r5 = e5 + r6;
    let r4 = e4 + r5;
    let r3 = e3 + r4;
    let r2 = e2 + r3;
    assert(enc_cred(c) == l11);
    assert(l11 + rest =~= l10 + r11);
    assert(l10 + r11 =~= l9 + r10);
    assert(l9 + r10 =~= l8 + r9);
    assert(l8 + r9 =~= l7 + r8);
    assert(l7 + r8 =~= l6 + r7);
    assert(l6 + r7 =~= l5 + r6);
    assert(l5 + r6 =~= l4 + r5);
    assert(l4 + r5 =~= l3 + r4);
    assert(l3 + r4 =~= l2 + r3);
    assert(l2 + r3 =~= e1 + r2);
}

#[verifier::rlimit(100)]
pub proof fn lemma_dec_cred(c: CredView, rest: Seq<u8>)
    requires
        wf_cred(c),
    ensures
        dec_cred(enc_cred(c) + rest) == Some((c, enc_cred(c).len() as int)),
{
    let e1 = enc_str(c.id);
    let e2 = enc_entry_type(c.entry_type);
    let e3 = enc_str(c.service);
    let e4 = enc_str(c.username);
    let e5 = enc_bytes(c.secret);
    let e6 = enc_str(c.notes);
    let e7 = enc_str_list(c.tags);
    let e8 = enc_bool(c.is_active);
    let e9 = enc_pair_list(c.custom_fields);
    let e10 = enc_u64(c.created_at);
    let e11 = enc_u64(c.updated_at);
    let b = enc_cred(c) + rest;
    let r11 = e11 + rest;
    let r10 = e10 + r11;
    let r9 = e9 + r10;
    let r8 = e8 + r9;
    let r7 = e7 + r8;
    let r6 = e6 + r7;
    let r5 = e5 + r6;
    let r4 = e4 + r5;
    let r3 = e3 + r4;
    let r2 = e2 + r3;
    lemma_cred_reassoc(c, rest);
    assert(b == e1 + r2);
    lemma_dec_str(c.id, r2);
    assert(b.skip(e1.len() as int) =~= r2);
    lemma_dec_entry_type(c.entry_type, r3);
    assert(r2.skip(e2.len() as int) =~= r3);
    lemma_dec_str(c.service, r4);
    assert(r3.skip(e3.len() as int) =~= r4);
    lemma_dec_str(c.username, r5);
    assert(r4.skip(e4.len() as int) =~= r5);
    lemma_dec_bytes(c.secret, r6);
    assert(r5.skip(e5.len() as int) =~= r6);
    lemma_dec_str(c.notes, r7);
    assert(r6.skip(e6.len() as int) =~= r7);
    lemma_dec_str_list(c.tags, r8);
    assert(r7.skip(e7.len() as int) =~= r8);
    lemma_dec_bool(c.is_active, r9);
    assert(r8.skip(e8.len() as int) =~= r9);
    lemma_dec_pair_list(c.custom_fields, r10);
    assert(r9.skip(e9.len() as int) =~= r10);
    lemma_dec_u64(c.created_at, r11);
    assert(r10.skip(e10.len() as int) =~= r11);
    lemma_dec_u64(c.updated_at, rest);
    lemma_dec_cred_assemble(
        c,
        b,
        r2,
        r3,
        r4,
        r5,
        r6,
        r7,
        r8,
        r9,
        r10,
        r11,
        e1.len() as int,
        e2.len() as int,
        e3.len() as int,
        e4.len() as int,
        e5.len() as int,
        e6.len() as int,
        e7.len() as int,
        e8.len() as int,
        e9.len() as int,
        e10.len() as int,
        e11.len() as int,
    );
    assert(enc_cred(c).len() == e1.len() + e2.len() + e3.len() + e4.len() + e5.len() + e6.len()
        + e7.len() + e8.len() + e9.len() + e10.len() + e11.len());
}

#[verifier::rlimit(100)]
pub proof fn lemma_dec_cred_items(l: Seq<CredView>, rest: Seq<u8>)
    requires
        forall|i: int| 0 <= i < l.len() ==> wf_cred(#[trigger] l[i]),
    ensures
        dec_cred_items(enc_cred_items(l) + rest, l.len() as nat) == Some(
            (l, enc_cred_items(l).len() as int),
        ),
    decreases l.len(),
{
    if l.len() == 0 {
        assert(enc_cred_items(l).len() == 0);
        assert(Seq::<CredView>::empty() =~= l);
    } else {
        let c0 = l[0];
        let tail = l.drop_first();
        let b = enc_cred_items(l) + rest;
        assert(b =~= enc_cred(c0) + (enc_cred_items(tail) + rest));
        lemma_dec_cred(c0, enc_cred_items(tail) + rest);
        let p = enc_cred(c0).len() as int;
        assert(b.skip(p) =~= enc_cred_items(tail) + rest);
        lemma_dec_cred_items(tail, rest);
        assert(seq![c0] + tail =~= l);
    }
}

/// Law: decoding an encoded credential set yields that set back.
pub proof fn lemma_repo_round_trip(l: Seq<CredView>)
    requires
        wf_repo(l),
    ensures
        repo_of_bytes(enc_repo(l)) == Some(l),
{
    let b = enc_repo(l);
    lemma_dec_u64(l.len() as u64, enc_cred_items(l));
    assert(b =~= enc_u64(l.len() as u64) + (enc_cred_items(l) + Seq::<u8>::empty()));
    assert(enc_cred_items(l) + Seq::<u8>::empty() =~= enc_cred_items(l));
    assert(b =~= enc_u64(l.len() as u64) + enc_cred_items(l));
    assert(b.skip(8) =~= enc_cred_items(l));
    lemma_dec_cred_items(l, Seq::<u8>::empty());
    assert(enc_cred_items(l) + Seq::<u8>::empty() =~= enc_cred_items(l));
}

/// Law: decoding an encoded vault record yields that record back.
pub proof fn lemma_record_round_trip(r: RecView)
    requires
        wf_record(r),
    ensures
        rec_of_bytes(enc_record(r)) == Some(r),
{
    let b = enc_record(r);
    let e1 = enc_bytes(r.salt);
    let e2 = enc_bytes(r.nonce);
    let e3 = enc_bytes(r.ciphertext);
    let r2 = e2 + e3;
    assert(b =~= e1 + r2);
    lemma_dec_bytes(r.salt, r2);
    assert(b.skip(e1.len() as int) =~= r2);
    lemma_dec_bytes(r.nonce, e3);
    assert(r2.skip(e2.len() as int) =~= e3);
    lemma_dec_bytes(r.ciphertext, Seq::<u8>::empty());
    assert(e3 + Seq::<u8>::empty() =~= e3);
}


// ---------------------------------------------------------------------------
// Executable encoders. Each appends one encoding to `out`; the side
// conditions `wf_*` come along because executable lengths are usize.
// ---------------------------------------------------------------------------
fn push_slice(out: &mut Vec<u8>, b: &[u8])
    ensures
        final(out)@ == old(out)@ + b@,
{
    let ghost base = old(out)@;
    let mut i: usize = 0;
    while i < b.len()
        invariant
            i <= b@.len(),
            out@ == base + b@.subrange(0, i as int),
        decreases b@.len() - i,
    {
        let ghost pre = out@;
        out.push(*slice_index_get(b, i));
        proof {
            assert(base + b@.subrange(0, i as int + 1) =~= pre.push(b@[i as int]));
        }
        i = i + 1;
    }
    proof {
        assert(b@.subrange(0, b@.len() as int) =~= b@);
    }
}

fn encode_u64_into(out: &mut Vec<u8>, x: u64)
    ensures
        final(out)@ == old(out)@ + enc_u64(x),
{
    let mut bs = u64_to_le_bytes(x);
    out.append(&mut bs);
}

fn encode_bytes_into(out: &mut Vec<u8>, b: &[u8])
    ensures
        final(out)@ == old(out)@ + enc_bytes(b@),
        fits_u64(b@.len() as int),
{
    let ghost base = old(out)@;
    let n = b.len();
    encode_u64_into(out, n as u64);
    push_slice(out, b);
    proof {
        assert((base + enc_u64(n as u64)) + b@ =~= base + (enc_u64(n as u64) + b@));
    }
}

fn encode_str_into(out: &mut Vec<u8>, s: &str)
    ensures
        final(out)@ == old(out)@ + enc_str(s@),
        wf_str(s@),
{
    encode_bytes_into(out, s.as_bytes());
}

fn encode_bool_into(out: &mut Vec<u8>, v: bool)
    ensures
        final(out)@ == old(out)@ + enc_bool(v),
{
    let ghost base = old(out)@;
    if v {
        out.push(1u8);
    } else {
        out.push(0u8);
    }
    proof {
        assert(base + enc_bool(v) =~= base.push(
            if v {
                1u8
            } else {
                0u8
            },
        ));
    }
}

fn encode_entry_type_into(out: &mut Vec<u8>, t: EntryType)
    ensures
        final(out)@ == old(out)@ + enc_entry_type(t),
{
    let ghost base = old(out)@;
    match t {
        EntryType::Password => out.push(0u8),
        EntryType::ApiKey => out.push(1u8),
    }
    proof {
        assert(base + enc_entry_type(t) =~= base.push(
            match t {
                EntryType::Password => 0u8,
                EntryType::ApiKey => 1u8,
            },
        ));
    }
}

fn encode_strs_from(out: &mut Vec<u8>, l: &Vec<String>, i: usize)
    requires
        i <= l@.len(),
    ensures
        final(out)@ == old(out)@ + enc_str_items(l.deep_view().skip(i as int)),
        forall|j: int| i <= j < l.deep_view().len() ==> wf_str(#[trigger] l.deep_view()[j]),
    decreases l@.len() - i,
{
    let ghost base = old(out)@;
    let ghost dv = l.deep_view();
    if i == l.len() {
        proof {
            assert(dv.skip(i as int) =~= Seq::<Seq<char>>::empty());
            assert(base + enc_str_items(dv.skip(i as int)) =~= base);
        }
    } else {
        encode_str_into(out, l[i].as_str());
        encode_strs_from(out, l, i + 1);
        proof {
            let m = dv.skip(i as int);
            assert(m[0] == dv[i as int]);
            assert(m.drop_first() =~= dv.skip(i as int + 1));
            assert((base + enc_str(dv[i as int])) + enc_str_items(dv.skip(i as int + 1)) =~= base
                + (enc_str(dv[i as int]) + enc_str_items(m.drop_first())));
        }
    }
}

fn encode_str_list_into(out: &mut Vec<u8>, l: &Vec<String>)
    ensures
        final(out)@ == old(out)@ + enc_str_list(l.deep_view()),
        wf_str_list(l.deep_view()),
{
    let ghost base = old(out)@;
    let ghost dv = l.deep_view();
    let n = l.len();
    encode_u64_into(out, n as u64);
    encode_strs_from(out, l, 0);
    proof {
        assert(dv.skip(0) =~= dv);
        assert((base + enc_u64(n as u64)) + enc_str_items(dv) =~= base + (enc_u64(n as u64)
            + enc_str_items(dv)));
    }
}

fn encode_pairs_from(out: &mut Vec<u8>, l: &Vec<(String, String)>, i: usize)
    requires
        i <= l@.len(),
    ensures
        final(out)@ == old(out)@ + enc_pair_items(pairs_deep_view(l@).skip(i as int)),
        forall|j: int|
            i <= j < l@.len() ==> wf_str(#[trigger] pairs_deep_view(l@)[j].0) && wf_str(
                pairs_deep_view(l@)[j].1,
            ),
    decreases l@.len() - i,
{
    let ghost base = old(out)@;
    let ghost dv = pairs_deep_view(l@);
    if i == l.len() {
        proof {
            assert(dv.skip(i as int) =~= Seq::<(Seq<char>, Seq<char>)>::empty());
            assert(base + enc_pair_items(dv.skip(i as int)) =~= base);
        }
    } else {
        let ghost mid1 = base + enc_str(dv[i as int].0);
        encode_str_into(out, l[i].0.as_str());
        encode_str_into(out, l[i].1.as_str());
        encode_pairs_from(out, l, i + 1);
        proof {
            let m = dv.skip(i as int);
            assert(m[0] == dv[i as int]);
            assert(m.drop_first() =~= dv.skip(i as int + 1));
            let e1 = enc_str(dv[i as int].0);
            let e2 = enc_str(dv[i as int].1);
            let tailenc = enc_pair_items(m.drop_first());
            assert(((base + e1) + e2) + tailenc =~= base + (e1 + e2 + tailenc));
        }
    }
}

fn encode_pair_list_into(out: &mut Vec<u8>, l: &Vec<(String, String)>)
    ensures
        final(out)@ == old(out)@ + enc_pair_list(pairs_deep_view(l@)),
        wf_pair_list(pairs_deep_view(l@)),
{
    let ghost base = old(out)@;
    let ghost dv = pairs_deep_view(l@);
    let n = l.len();
    encode_u64_into(out, n as u64);
    encode_pairs_from(out, l, 0);
    proof {
        assert(dv.skip(0) =~= dv);
        assert((base + enc_u64(n as u64)) + enc_pair_items(dv) =~= base + (enc_u64(n as u64)
            + enc_pair_items(dv)));
        assert forall|j: int| 0 <= j < dv.len() implies wf_str(#[trigger] dv[j].0) && wf_str(
            dv[j].1,
        ) by {
            assert(wf_str(pairs_deep_view(l@)[j].0) && wf_str(pairs_deep_view(l@)[j].1));
        }
    }
}

fn encode_cred_into(out: &mut Vec<u8>, c: &Credential)
    ensures
        final(out)@ == old(out)@ + enc_cred(c@),
        wf_cred(c@),
{
    let ghost base = old(out)@;
    let ghost e1 = enc_str(c@.id);
    let ghost e2 = enc_entry_type(c@.entry_type);
    let ghost e3 = enc_str(c@.service);
    let ghost e4 = enc_str(c@.username);
    let ghost e5 = enc_bytes(c@.secret);
    let ghost e6 = enc_str(c@.notes);
    let ghost e7 = enc_str_list(c@.tags);
    let ghost e8 = enc_bool(c@.is_active);
    let ghost e9 = enc_pair_list(c@.custom_fields);
    let ghost e10 = enc_u64(c@.created_at);
    let ghost e11 = enc_u64(c@.updated_at);
    encode_str_into(out, c.id.as_str());
    proof {
        assert(out@ == base + e1);
    }
    encode_entry_type_into(out, c.entry_type);
    proof {
        assert((base + e1) + e2 =~= base + (e1 + e2));
    }
    encode_str_into(out, c.service.as_str());
    proof {
        assert((base + (e1 + e2)) + e3 =~= base + (e1 + e2 + e3));
    }
    encode_str_into(out, c.username.as_str());
    proof {
        assert((base + (e1 + e2 + e3)) + e4 =~= base + (e1 + e2 + e3 + e4));
    }
    encode_bytes_into(out, c.secret.as_slice());
    proof {
        assert((base + (e1 + e2 + e3 + e4)) + e5 =~= base + (e1 + e2 + e3 + e4 + e5));
    }
    encode_str_into(out, c.notes.as_str());
    proof {
        assert((base + (e1 + e2 + e3 + e4 + e5)) + e6 =~= base + (e1 + e2 + e3 + e4 + e5 + e6));
    }
    encode_str_list_into(out, &c.tags);
    proof {
        assert((base + (e1 + e2 + e3 + e4 + e5 + e6)) + e7 =~= base + (e1 + e2 + e3 + e4 + e5 + e6
            + e7));
    }
    encode_bool_into(out, c.is_active);
    proof {
        assert((base + (e1 + e2 + e3 + e4 + e5 + e6 + e7)) + e8 =~= base + (e1 + e2 + e3 + e4 + e5
            + e6 + e7 + e8));
    }
    encode_pair_list_into(out, &c.custom_fields);
    proof {
        assert((base + (e1 + e2 + e3 + e4 + e5 + e6 + e7 + e8)) + e9 =~= base + (e1 + e2 + e3 + e4
            + e5 + e6 + e7 + e8 + e9));
    }
    encode_u64_into(out, c.created_at);
    proof {
        assert((base + (e1 + e2 + e3 + e4 + e5 + e6 + e7 + e8 + e9)) + e10 =~= base + (e1 + e2 + e3
            + e4 + e5 + e6 + e7 + e8 + e9 + e10));
    }
    encode_u64_into(out, c.updated_at);
    proof {
        assert((base + (e1 + e2 + e3 + e4 + e5 + e6 + e7 + e8 + e9 + e10)) + e11 =~= base + (e1
            + e2 + e3 + e4 + e5 + e6 + e7 + e8 + e9 + e10 + e11));
    }
}

fn encode_creds_from(out: &mut Vec<u8>, l: &Vec<Credential>, i: usize)
    requires
        i <= l@.len(),
    ensures
        final(out)@ == old(out)@ + enc_cred_items(l.deep_view().skip(i as int)),
        forall|j: int| i <= j < l.deep_view().len() ==> wf_cred(#[trigger] l.deep_view()[j]),
    decreases l@.len() - i,
{
    let ghost base = old(out)@;
    let ghost dv = l.deep_view();
    if i == l.len() {
        proof {
            assert(dv.skip(i as int) =~= Seq::<CredView>::empty());
            assert(base + enc_cred_items(dv.skip(i as int)) =~= base);
        }
    } else {
        encode_cred_into(out, &l[i]);
        encode_creds_from(out, l, i + 1);
        proof {
            let m = dv.skip(i as int);
            assert(m[0] == dv[i as int]);
            assert(m.drop_first() =~= dv.skip(i as int + 1));
            assert((base + enc_cred(dv[i as int])) + enc_cred_items(dv.skip(i as int + 1)) =~= base
                + (enc_cred(dv[i as int]) + enc_cred_items(m.drop_first())));
        }
    }
}

/// Encodes the whole credential set as one byte string.
pub fn encode_repo(l: &Vec<Credential>) -> (r: Vec<u8>)
    ensures
        r@ == enc_repo(l.deep_view()),
        wf_repo(l.deep_view()),
{
    let ghost dv = l.deep_view();
    let mut out: Vec<u8> = Vec::new();
    let n = l.len();
    encode_u64_into(&mut out, n as u64);
    encode_creds_from(&mut out, l, 0);
    proof {
        assert(dv.skip(0) =~= dv);
        assert((Seq::<u8>::empty() + enc_u64(n as u64)) + enc_cred_items(dv) =~= enc_u64(
            n as u64,
        ) + enc_cred_items(dv));
    }
    out
}

/// Encodes a vault record as one byte string.
pub fn encode_record(v: &EncryptedVault) -> (r: Vec<u8>)
    ensures
        r@ == enc_record(v@),
        wf_record(v@),
{
    let mut out: Vec<u8> = Vec::new();
    let ghost e1 = enc_bytes(v@.salt);
    let ghost e2 = enc_bytes(v@.nonce);
    let ghost e3 = enc_bytes(v@.ciphertext);
    encode_bytes_into(&mut out, v.salt.as_slice());
    proof {
        assert(Seq::<u8>::empty() + e1 =~= e1);
    }
    encode_bytes_into(&mut out, v.nonce.as_slice());
    encode_bytes_into(&mut out, v.ciphertext.as_slice());
    proof {
        assert((e1 + e2) + e3 =~= e1 + e2 + e3);
    }
    out
}

// ---------------------------------------------------------------------------
// Executable decoders. Each reads at an absolute position and returns the
// value together with the position after it; `None` means the input is not
// an encoding. They are proved to implement the spec decoders exactly.
// ---------------------------------------------------------------------------
/// Relies on `String::from_utf8`: succeeds exactly on valid UTF-8 input and
/// returns the string those bytes encode.
#[verifier::external_body]
fn bytes_to_string(b: Vec<u8>) -> (r: Option<String>)
    ensures
        r matches Some(s) ==> valid_utf8(b@) && s@ == decode_utf8(b@),
        r is None ==> !valid_utf8(b@),
{
    String::from_utf8(b).ok()
}

fn read_u64(b: &[u8], pos: usize) -> (r: Option<(u64, usize)>)
    requires
        pos <= b@.len(),
    ensures
        match r {
            Some((x, q)) => {
                &&& dec_u64(b@.skip(pos as int)) == Some((x, q - pos))
                &&& pos <= q <= b@.len()
            },
            None => dec_u64(b@.skip(pos as int)) is None,
        },
{
    if b.len() - pos >= 8 {
        let s = slice_subrange(b, pos, pos + 8);
        let x = u64_from_le_bytes(s);
        proof {
            assert(b@.skip(pos as int).subrange(0, 8) =~= b@.subrange(pos as int, pos as int + 8));
        }
        Some((x, pos + 8))
    } else {
        None
    }
}

fn read_bytes(b: &[u8], pos: usize) -> (r: Option<(Vec<u8>, usize)>)
    requires
        pos <= b@.len(),
    ensures
        match r {
            Some((v, q)) => {
                &&& dec_bytes(b@.skip(pos as int)) == Some((v@, q - pos))
                &&& pos <= q <= b@.len()
                &&& fits_u64(v@.len() as int)
            },
            None => dec_bytes(b@.skip(pos as int)) is None,
        },
{
    match read_u64(b, pos) {
        None => None,
        Some((n, q)) => {
            if n <= (b.len() - q) as u64 {
                let m = n as usize;
                let s = slice_subrange(b, q, q + m);
                let v = slice_to_vec(s);
                proof {
                    let suf = b@.skip(pos as int);
                    assert(suf.subrange(q - pos, q - pos + n as int) =~= b@.subrange(
                        q as int,
                        q as int + n as int,
                    ));
                }
                Some((v, q + m))
            } else {
                None
            }
        },
    }
}

fn read_string(b: &[u8], pos: usize) -> (r: Option<(String, usize)>)
    requires
        pos <= b@.len(),
    ensures
        match r {
            Some((s, q)) => {
                &&& dec_str(b@.skip(pos as int)) == Some((s@, q - pos))
                &&& pos <= q <= b@.len()
                &&& wf_str(s@)
            },
            None => dec_str(b@.skip(pos as int)) is None,
        },
{
    match read_bytes(b, pos) {
        None => None,
        Some((v, q)) => {
            let ghost bs = v@;
            match bytes_to_string(v) {
                None => None,
                Some(s) => {
                    proof {
                        decode_utf8_encode_utf8(bs);
                    }
                    Some((s, q))
                },
            }
        },
    }
}

fn read_bool(b: &[u8], pos: usize) -> (r: Option<(bool, usize)>)
    requires
        pos <= b@.len(),
    ensures
        match r {
            Some((v, q)) => {
                &&& dec_bool(b@.skip(pos as int)) == Some((v, q - pos))
                &&& pos <= q <= b@.len()
            },
            None => dec_bool(b@.skip(pos as int)) is None,
        },
{
    if b.len() - pos >= 1 {
        let x = *slice_index_get(b, pos);
        if x == 0 {
            Some((false, pos + 1))
        } else if x == 1 {
            Some((true, pos + 1))
        } else {
            None
        }
    } else {
        None
    }
}

fn read_entry_type(b: &[u8], pos: usize) -> (r: Option<(EntryType, usize)>)
    requires
        pos <= b@.len(),
    ensures
        match r {
            Some((t, q)) => {
                &&& dec_entry_type(b@.skip(pos as int)) == Some((t, q - pos))
                &&& pos <= q <= b@.len()
            },
            None => dec_entry_type(b@.skip(pos as int)) is None,
        },
{
    if b.len() - pos >= 1 {
        let x = *slice_index_get(b, pos);
        if x == 0 {
            Some((EntryType::Password, pos + 1))
        } else if x == 1 {
            Some((EntryType::ApiKey, pos + 1))
        } else {
            None
        }
    } else {
        None
    }
}

fn read_str_items(b: &[u8], pos: usize, n: u64) -> (r: Option<(Vec<String>, usize)>)
    requires
        pos <= b@.len(),
    ensures
        match r {
            Some((l, q)) => {
                &&& dec_str_items(b@.skip(pos as int), n as nat) == Some((l.deep_view(), q - pos))
                &&& pos <= q <= b@.len()
                &&& forall|j: int|
                    0 <= j < l.deep_view().len() ==> wf_str(#[trigger] l.deep_view()[j])
            },
            None => dec_str_items(b@.skip(pos as int), n as nat) is None,
        },
    decreases n,
{
    if n == 0 {
        let l: Vec<String> = Vec::new();
        proof {
            assert(l.deep_view() =~= Seq::<Seq<char>>::empty());
        }
        Some((l, pos))
    } else {
        match read_string(b, pos) {
            None => None,
            Some((s, q)) => {
                proof {
                    assert(b@.skip(pos as int).skip(q - pos) =~= b@.skip(q as int));
                }
                match read_str_items(b, q, n - 1) {
                    None => None,
                    Some((mut l, q2)) => {
                        let ghost prev = l.deep_view();
                        l.insert(0, s);
                        proof {
                            assert(l.deep_view() =~= seq![s@] + prev);
                        }
                        Some((l, q2))
                    },
                }
            },
        }
    }
}

fn read_pair_items(b: &[u8], pos: usize, n: u64) -> (r: Option<(Vec<(String, String)>, usize)>)
    requires
        pos <= b@.len(),
    ensures
        match r {
            Some((l, q)) => {
                &&& dec_pair_items(b@.skip(pos as int), n as nat) == Some(
                    (pairs_deep_view(l@), q - pos),
                )
                &&& pos <= q <= b@.len()
                &&& forall|j: int|
                    0 <= j < l@.len() ==> wf_str(#[trigger] pairs_deep_view(l@)[j].0) && wf_str(
                        pairs_deep_view(l@)[j].1,
                    )
            },
            None => dec_pair_items(b@.skip(pos as int), n as nat) is None,
        },
    decreases n,
{
    if n == 0 {
        let l: Vec<(String, String)> = Vec::new();
        proof {
            assert(pairs_deep_view(l@) =~= Seq::<(Seq<char>, Seq<char>)>::empty());
        }
        Some((l, pos))
    } else {
        match read_string(b, pos) {
            None => None,
            Some((k, q1)) => {
                proof {
                    assert(b@.skip(pos as int).skip(q1 - pos) =~= b@.skip(q1 as int));
                }
                match read_string(b, q1) {
                    None => None,
                    Some((v, q2)) => {
                        proof {
                            assert(b@.skip(q1 as int).skip(q2 - q1) =~= b@.skip(q2 as int));
                        }
                        match read_pair_items(b, q2, n - 1) {
                            None => None,
                            Some((mut l, q3)) => {
                                let ghost prev = pairs_deep_view(l@);
                                let ghost kv = (k@, v@);
                                l.insert(0, (k, v));
                                proof {
                                    assert(pairs_deep_view(l@) =~= seq![kv] + prev);
                                }
                                Some((l, q3))
                            },
                        }
                    },
                }
            },
        }
    }
}

fn read_str_list(b: &[u8], pos: usize) -> (r: Option<(Vec<String>, usize)>)
    requires
        pos <= b@.len(),
    ensures
        match r {
            Some((l, q)) => {
                &&& dec_str_list(b@.skip(pos as int)) == Some((l.deep_view(), q - pos))
                &&& pos <= q <= b@.len()
                &&& wf_str_list(l.deep_view())
            },
            None => dec_str_list(b@.skip(pos as int)) is None,
        },
{
    match read_u64(b, pos) {
        None => None,
        Some((n, q)) => {
            proof {
                assert(b@.skip(pos as int).skip(q - pos) =~= b@.skip(q as int));
            }
            match read_str_items(b, q, n) {
                None => None,
                Some((l, q2)) => {
                    proof {
                        assert(l.deep_view().len() == n as nat) by {
                            lemma_dec_str_items_len(b@.skip(q as int), n as nat);
                        }
                    }
                    Some((l, q2))
                },
            }
        },
    }
}

fn read_pair_list(b: &[u8], pos: usize) -> (r: Option<(Vec<(String, String)>, usize)>)
    requires
        pos <= b@.len(),
    ensures
        match r {
            Some((l, q)) => {
                &&& dec_pair_list(b@.skip(pos as int)) == Some((pairs_deep_view(l@), q - pos))
                &&& pos <= q <= b@.len()
                &&& wf_pair_list(pairs_deep_view(l@))
            },
            None => dec_pair_list(b@.skip(pos as int)) is None,
        },
{
    match read_u64(b, pos) {
        None => None,
        Some((n, q)) => {
            proof {
                assert(b@.skip(pos as int).skip(q - pos) =~= b@.skip(q as int));
            }
            match read_pair_items(b, q, n) {
                None => None,
                Some((l, q2)) => {
                    proof {
                        assert(pairs_deep_view(l@).len() == n as nat) by {
                            lemma_dec_pair_items_len(b@.skip(q as int), n as nat);
                        }
                    }
                    Some((l, q2))
                },
            }
        },
    }
}

/// The number of items a successful list decode returns is the requested one.
proof fn lemma_dec_str_items_len(b: Seq<u8>, n: nat)
    requires
        dec_str_items(b, n) is Some,
    ensures
        dec_str_items(b, n)->Some_0.0.len() == n,
    decreases n,
{
    if n != 0 {
        let (s, p) = dec_str(b)->Some_0;
        lemma_dec_str_items_len(b.skip(p), (n - 1) as nat);
    }
}

/// The number of items a successful list decode returns is the requested one.
proof fn lemma_dec_pair_items_len(b: Seq<u8>, n: nat)
    requires
        dec_pair_items(b, n) is Some,
    ensures
        dec_pair_items(b, n)->Some_0.0.len() == n,
    decreases n,
{
    if n != 0 {
        let (s, p1) = dec_str(b)->Some_0;
        let b1 = b.skip(p1);
        let (v, p2) = dec_str(b1)->Some_0;
        lemma_dec_pair_items_len(b1.skip(p2), (n - 1) as nat);
    }
}


#[verifier::rlimit(100)]
#[verifier::spinoff_prover]
fn read_cred(b: &[u8], pos: usize) -> (r: Option<(Credential, usize)>)
    requires
        pos <= b@.len(),
    ensures
        match r {
            Some((c, q)) => {
                &&& dec_cred(b@.skip(pos as int)) == Some((c@, q - pos))
                &&& pos <= q <= b@.len()
                &&& wf_cred(c@)
            },
            None => dec_cred(b@.skip(pos as int)) is None,
        },
{
    let ghost s0 = b@.skip(pos as int);
    let (id, q1) = match read_string(b, pos) {
        None => {
            return None;
        },
        Some(x) => x,
    };
    proof {
        assert(s0.skip(q1 - pos) =~= b@.skip(q1 as int));
    }
    let (entry_type, q2) = match read_entry_type(b, q1) {
        None => {
            return None;
        },
        Some(x) => x,
    };
    proof {
        assert(b@.skip(q1 as int).skip(q2 - q1) =~= b@.skip(q2 as int));
    }
    let (service, q3) = match read_string(b, q2) {
        None => {
            return None;
        },
        Some(x) => x,
    };
    proof {
        assert(b@.skip(q2 as int).skip(q3 - q2) =~= b@.skip(q3 as int));
    }
    let (username, q4) = match read_string(b, q3) {
        None => {
            return None;
        },
        Some(x) => x,
    };
    proof {
        assert(b@.skip(q3 as int).skip(q4 - q3) =~= b@.skip(q4 as int));
    }
    let (secret, q5) = match read_bytes(b, q4) {
        None => {
            return None;
        },
        Some(x) => x,
    };
    proof {
        assert(b@.skip(q4 as int).skip(q5 - q4) =~= b@.skip(q5 as int));
    }
    let (notes, q6) = match read_string(b, q5) {
        None => {
            return None;
        },
        Some(x) => x,
    };
    proof {
        assert(b@.skip(q5 as int).skip(q6 - q5) =~= b@.skip(q6 as int));
    }
    let (tags, q7) = match read_str_list(b, q6) {
        None => {
            return None;
        },
        Some(x) => x,
    };
    proof {
        assert(b@.skip(q6 as int).skip(q7 - q6) =~= b@.skip(q7 as int));
    }
    let (is_active, q8) = match read_bool(b, q7) {
        None => {
            return None;
        },
        Some(x) => x,
    };
    proof {
        assert(b@.skip(q7 as int).skip(q8 - q7) =~= b@.skip(q8 as int));
    }
    let (custom_fields, q9) = match read_pair_list(b, q8) {
        None => {
            return None;
        },
        Some(x) => x,
    };
    proof {
        assert(b@.skip(q8 as int).skip(q9 - q8) =~= b@.skip(q9 as int));
    }
    let (created_at, q10) = match read_u64(b, q9) {
        None => {
            return None;
        },
        Some(x) => x,
    };
    proof {
        assert(b@.skip(q9 as int).skip(q10 - q9) =~= b@.skip(q10 as int));
    }
    let (updated_at, q11) = match read_u64(b, q10) {
        None => {
            return None;
        },
        Some(x) => x,
    };
    let c = Credential {
        id,
        entry_type,
        service,
        username,
        secret,
        notes,
        tags,
        is_active,
        custom_fields,
        created_at,
        updated_at,
    };
    proof {
        lemma_dec_cred_assemble(
            c@,
            s0,
            b@.skip(q1 as int),
            b@.skip(q2 as int),
            b@.skip(q3 as int),
            b@.skip(q4 as int),
            b@.skip(q5 as int),
            b@.skip(q6 as int),
            b@.skip(q7 as int),
            b@.skip(q8 as int),
            b@.skip(q9 as int),
            b@.skip(q10 as int),
            q1 - pos,
            q2 - q1,
            q3 - q2,
            q4 - q3,
            q5 - q4,
            q6 - q5,
            q7 - q6,
            q8 - q7,
            q9 - q8,
            q10 - q9,
            q11 - q10,
        );
    }
    Some((c, q11))
}

#[verifier::rlimit(100)]
#[verifier::spinoff_prover]
fn read_cred_items(b: &[u8], pos: usize, n: u64) -> (r: Option<(Vec<Credential>, usize)>)
    requires
        pos <= b@.len(),
    ensures
        match r {
            Some((l, q)) => {
                &&& dec_cred_items(b@.skip(pos as int), n as nat) == Some((l.deep_view(), q - pos))
                &&& pos <= q <= b@.len()
                &&& forall|j: int|
                    0 <= j < l.deep_view().len() ==> wf_cred(#[trigger] l.deep_view()[j])
            },
            None => dec_cred_items(b@.skip(pos as int), n as nat) is None,
        },
    decreases n,
{
    if n == 0 {
        let l: Vec<Credential> = Vec::new();
        proof {
            assert(l.deep_view() =~= Seq::<CredView>::empty());
        }
        Some((l, pos))
    } else {
        match read_cred(b, pos) {
            None => None,
            Some((c, q)) => {
                proof {
                    assert(b@.skip(pos as int).skip(q - pos) =~= b@.skip(q as int));
                }
                match read_cred_items(b, q, n - 1) {
                    None => None,
                    Some((mut l, q2)) => {
                        let ghost prev = l.deep_view();
                        let ghost cv = c@;
                        l.insert(0, c);
                        proof {
                            assert(l.deep_view() =~= seq![cv] + prev);
                        }
                        Some((l, q2))
                    },
                }
            },
        }
    }
}

/// Decodes a whole byte string as a credential set; `None` means the bytes
/// are not exactly one encoding of a credential set.
pub fn decode_repo(b: &[u8]) -> (r: Option<Vec<Credential>>)
    ensures
        match r {
            Some(l) => repo_of_bytes(b@) == Some(l.deep_view()) && wf_repo(l.deep_view()),
            None => repo_of_bytes(b@) is None,
        },
{
    proof {
        assert(b@.skip(0) =~= b@);
    }
    match read_u64(b, 0) {
        None => None,
        Some((n, q)) => {
            match read_cred_items(b, q, n) {
                None => None,
                Some((l, q2)) => {
                    if q2 == b.len() {
                        proof {
                            assert(l.deep_view().len() <= u64::MAX) by {
                                lemma_dec_cred_items_len(b@.skip(q as int), n as nat);
                            }
                        }
                        Some(l)
                    } else {
                        None
                    }
                },
            }
        },
    }
}

/// The number of items a successful list decode returns is the requested one.
proof fn lemma_dec_cred_items_len(b: Seq<u8>, n: nat)
    requires
        dec_cred_items(b, n) is Some,
    ensures
        dec_cred_items(b, n)->Some_0.0.len() == n,
    decreases n,
{
    if n != 0 {
        let (c, p) = dec_cred(b)->Some_0;
        lemma_dec_cred_items_len(b.skip(p), (n - 1) as nat);
    }
}

/// Decodes a whole byte string as a vault record; `None` means the bytes are
/// not exactly one encoding of a record.
pub fn decode_record(b: &[u8]) -> (r: Option<EncryptedVault>)
    ensures
        match r {
            Some(v) => rec_of_bytes(b@) == Some(v@) && wf_record(v@),
            None => rec_of_bytes(b@) is None,
        },
{
    proof {
        assert(b@.skip(0) =~= b@);
    }
    match read_bytes(b, 0) {
        None => None,
        Some((salt, q1)) => {
            proof {
                assert(b@.skip(0).skip(q1 as int) =~= b@.skip(q1 as int));
            }
            match read_bytes(b, q1) {
                None => None,
                Some((nonce, q2)) => {
                    proof {
                        assert(b@.skip(q1 as int).skip(q2 - q1) =~= b@.skip(q2 as int));
                    }
                    match read_bytes(b, q2) {
                        None => None,
                        Some((ciphertext, q3)) => {
                            if q3 == b.len() {
                                Some(EncryptedVault { salt, nonce, ciphertext })
                            } else {
                                None
                            }
                        },
                    }
                },
            }
        },
    }
}

} // verus!
