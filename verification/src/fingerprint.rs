//! The fingerprint of a set of displays: the key under which its layout is
//! saved.
//!
//! The fingerprint is the SHA-256 digest of a message that lists the
//! identities in the canonical order, every text with its length in front.
//! It depends on nothing but the identities: not on names, not on geometry,
//! not on the order of enumeration.

use crate::sorting::{
    canonical_sort, identities, is_sorted, lemma_canonical_sort_properties,
    lemma_sorted_identities_unique, sort_heads,
};
use crate::types::{copy_heads, head_views, Head, HeadView, Identity};
use sha2::{Digest, Sha256};
use vstd::prelude::*;
use vstd::string::StringExecFns;
use vstd::utf8::{encode_utf8, encode_utf8_decode_utf8};

verus! {

/// The `width` low bytes of `n`, the lowest first.
pub open spec fn le_bytes(n: nat, width: nat) -> Seq<u8>
    decreases width,
{
    if width == 0 {
        Seq::empty()
    } else {
        seq![(n % 256) as u8] + le_bytes(n / 256, (width - 1) as nat)
    }
}

/// A length as it stands in the message: eight bytes, the lowest first.
pub open spec fn length_bytes(n: nat) -> Seq<u8> {
    le_bytes(n, 8)
}

/// A text as it stands in the message: the length of its UTF-8 encoding,
/// then the encoding.
pub open spec fn field_bytes(text: Seq<char>) -> Seq<u8> {
    length_bytes(encode_utf8(text).len()) + encode_utf8(text)
}

/// An identity as it stands in the message: make, model, serial.
pub open spec fn identity_bytes(id: Identity) -> Seq<u8> {
    field_bytes(id.make) + field_bytes(id.model) + field_bytes(id.serial)
}

/// The identities one after the other.
pub open spec fn identities_bytes(ids: Seq<Identity>) -> Seq<u8>
    decreases ids.len(),
{
    if ids.len() == 0 {
        Seq::empty()
    } else {
        identity_bytes(ids.first()) + identities_bytes(ids.drop_first())
    }
}

/// The message that is hashed for the identities `ids`: their number, then
/// the identities in the order given.
pub open spec fn message(ids: Seq<Identity>) -> Seq<u8> {
    length_bytes(ids.len()) + identities_bytes(ids)
}

/// Whether a length fits the eight bytes it is written in. It does for
/// every text and every list held in memory.
pub open spec fn fits(n: nat) -> bool {
    n < 0x1_0000_0000_0000_0000
}

/// Whether every length in the message for `ids` fits its eight bytes.
pub open spec fn encodable(ids: Seq<Identity>) -> bool {
    &&& fits(ids.len())
    &&& forall|i: int|
        0 <= i < ids.len() ==> fits(encode_utf8((#[trigger] ids[i]).make).len()) && fits(
            encode_utf8(ids[i].model).len(),
        ) && fits(encode_utf8(ids[i].serial).len())
}

/// The SHA-256 digest of `data`.
pub uninterp spec fn sha256(data: Seq<u8>) -> Seq<u8>;

/// What is hashed for a set of displays: the message for their identities in
/// the canonical order.
pub open spec fn fingerprint_input(heads: Seq<HeadView>) -> Seq<u8> {
    message(identities(canonical_sort(heads)))
}

/// The fingerprint of a set of displays: the digest of `fingerprint_input`.
pub open spec fn fingerprint_spec(heads: Seq<HeadView>) -> Seq<u8> {
    sha256(fingerprint_input(heads))
}

/// The character of a hexadecimal digit, in lower case.
pub open spec fn hex_digit(v: int) -> char {
    if v < 10 {
        crate::text::digit_char(v)
    } else if v == 10 {
        'a'
    } else if v == 11 {
        'b'
    } else if v == 12 {
        'c'
    } else if v == 13 {
        'd'
    } else if v == 14 {
        'e'
    } else {
        'f'
    }
}

/// The bytes in lower-case hexadecimal, two digits for each byte, the high
/// one first.
pub open spec fn hex_text(bytes: Seq<u8>) -> Seq<char> {
    Seq::new(
        2 * bytes.len(),
        |i: int|
            if i % 2 == 0 {
                hex_digit(bytes[i / 2] as int / 16)
            } else {
                hex_digit(bytes[i / 2] as int % 16)
            },
    )
}

/// The name of the file that holds the snapshot with the fingerprint
/// `digest`.
pub open spec fn snapshot_file_name_spec(digest: Seq<u8>) -> Seq<char> {
    hex_text(digest) + ".json"@
}

/// `le_bytes` gives `width` bytes.
proof fn lemma_le_bytes_len(n: nat, width: nat)
    ensures
        le_bytes(n, width).len() == width,
    decreases width,
{
    if width > 0 {
        lemma_le_bytes_len(n / 256, (width - 1) as nat);
    }
}

/// Two numbers below 256 to the power `width` with the same low bytes are
/// equal.
proof fn lemma_le_bytes_injective(m: nat, n: nat, width: nat, bound: nat)
    requires
        bound == vstd::arithmetic::power::pow(256, width),
        m < bound,
        n < bound,
        le_bytes(m, width) == le_bytes(n, width),
    ensures
        m == n,
    decreases width,
{
    vstd::arithmetic::power::lemma_pow0(256);
    if width > 0 {
        let rest = (width - 1) as nat;
        let lower = vstd::arithmetic::power::pow(256, rest) as nat;
        vstd::arithmetic::power::lemma_pow_positive(256, rest);
        assert(bound == 256 * lower) by {
            reveal(vstd::arithmetic::power::pow);
        }
        let a = le_bytes(m, width);
        let b = le_bytes(n, width);
        assert(a[0] == (m % 256) as u8);
        assert(b[0] == (n % 256) as u8);
        assert(m % 256 == n % 256);
        assert(a.drop_first() =~= le_bytes(m / 256, rest));
        assert(b.drop_first() =~= le_bytes(n / 256, rest));
        assert(m / 256 < lower && n / 256 < lower) by (nonlinear_arith)
            requires
                m < 256 * lower,
                n < 256 * lower,
        ;
        lemma_le_bytes_injective(m / 256, n / 256, rest, lower);
        assert(m == 256 * (m / 256) + m % 256 && n == 256 * (n / 256) + n % 256)
            by (nonlinear_arith);
    }
}

/// Two lengths that fit and are written alike are equal.
proof fn lemma_length_bytes_injective(m: nat, n: nat)
    requires
        fits(m),
        fits(n),
        length_bytes(m) == length_bytes(n),
    ensures
        m == n,
{
    assert(vstd::arithmetic::power::pow(256, 8) == 0x1_0000_0000_0000_0000) by {
        reveal_with_fuel(vstd::arithmetic::power::pow, 9);
    }
    lemma_le_bytes_injective(m, n, 8, 0x1_0000_0000_0000_0000);
}

/// Where two texts with something behind each are written alike, the texts
/// are equal and so is what stands behind them.
proof fn lemma_field_bytes_split(
    s: Seq<char>,
    rest_s: Seq<u8>,
    t: Seq<char>,
    rest_t: Seq<u8>,
)
    requires
        fits(encode_utf8(s).len()),
        fits(encode_utf8(t).len()),
        field_bytes(s) + rest_s == field_bytes(t) + rest_t,
    ensures
        s == t,
        rest_s == rest_t,
{
    let es = encode_utf8(s);
    let et = encode_utf8(t);
    let whole_s = field_bytes(s) + rest_s;
    let whole_t = field_bytes(t) + rest_t;
    lemma_le_bytes_len(es.len(), 8);
    lemma_le_bytes_len(et.len(), 8);
    assert(whole_s.take(8) =~= length_bytes(es.len()));
    assert(whole_t.take(8) =~= length_bytes(et.len()));
    lemma_length_bytes_injective(es.len(), et.len());
    let n = es.len() as int;
    assert(whole_s.subrange(8, 8 + n) =~= es);
    assert(whole_t.subrange(8, 8 + n) =~= et);
    assert(whole_s.skip(8 + n) =~= rest_s);
    assert(whole_t.skip(8 + n) =~= rest_t);
    encode_utf8_decode_utf8(s);
    encode_utf8_decode_utf8(t);
}

/// Where two identities with something behind each are written alike, the
/// identities are equal and so is what stands behind them.
proof fn lemma_identity_bytes_split(a: Identity, rest_a: Seq<u8>, b: Identity, rest_b: Seq<u8>)
    requires
        fits(encode_utf8(a.make).len()),
        fits(encode_utf8(a.model).len()),
        fits(encode_utf8(a.serial).len()),
        fits(encode_utf8(b.make).len()),
        fits(encode_utf8(b.model).len()),
        fits(encode_utf8(b.serial).len()),
        identity_bytes(a) + rest_a == identity_bytes(b) + rest_b,
    ensures
        a == b,
        rest_a == rest_b,
{
    let tail_a = field_bytes(a.model) + (field_bytes(a.serial) + rest_a);
    let tail_b = field_bytes(b.model) + (field_bytes(b.serial) + rest_b);
    assert(identity_bytes(a) + rest_a =~= field_bytes(a.make) + tail_a);
    assert(identity_bytes(b) + rest_b =~= field_bytes(b.make) + tail_b);
    lemma_field_bytes_split(a.make, tail_a, b.make, tail_b);
    lemma_field_bytes_split(
        a.model,
        field_bytes(a.serial) + rest_a,
        b.model,
        field_bytes(b.serial) + rest_b,
    );
    lemma_field_bytes_split(a.serial, rest_a, b.serial, rest_b);
    assert(a =~= b);
}

/// Two lists of equally many identities that are written alike are equal.
proof fn lemma_identities_bytes_injective(a: Seq<Identity>, b: Seq<Identity>)
    requires
        encodable(a),
        encodable(b),
        a.len() == b.len(),
        identities_bytes(a) == identities_bytes(b),
    ensures
        a == b,
    decreases a.len(),
{
    if a.len() == 0 {
        assert(a =~= b);
    } else {
        let ta = a.drop_first();
        let tb = b.drop_first();
        assert(a[0] == a.first() && b[0] == b.first());
        lemma_identity_bytes_split(a.first(), identities_bytes(ta), b.first(), identities_bytes(tb));
        assert(encodable(ta)) by {
            assert forall|i: int| 0 <= i < ta.len() implies fits(
                encode_utf8((#[trigger] ta[i]).make).len(),
            ) && fits(encode_utf8(ta[i].model).len()) && fits(encode_utf8(ta[i].serial).len()) by {
                assert(ta[i] == a[i + 1]);
            }
        }
        assert(encodable(tb)) by {
            assert forall|i: int| 0 <= i < tb.len() implies fits(
                encode_utf8((#[trigger] tb[i]).make).len(),
            ) && fits(encode_utf8(tb[i].model).len()) && fits(encode_utf8(tb[i].serial).len()) by {
                assert(tb[i] == b[i + 1]);
            }
        }
        lemma_identities_bytes_injective(ta, tb);
        assert(a =~= seq![a.first()] + ta);
        assert(b =~= seq![b.first()] + tb);
    }
}

/// Different lists of identities give different messages: no two texts run
/// into each other, because each has its length in front, and no display can
/// be added or taken away, because their number stands at the head. So two
/// sets of displays can only share a fingerprint where SHA-256 collides.
pub proof fn lemma_message_injective(a: Seq<Identity>, b: Seq<Identity>)
    requires
        encodable(a),
        encodable(b),
        message(a) == message(b),
    ensures
        a == b,
{
    lemma_le_bytes_len(a.len(), 8);
    lemma_le_bytes_len(b.len(), 8);
    assert(message(a).take(8) =~= length_bytes(a.len()));
    assert(message(b).take(8) =~= length_bytes(b.len()));
    lemma_length_bytes_injective(a.len(), b.len());
    assert(message(a).skip(8) =~= identities_bytes(a));
    assert(message(b).skip(8) =~= identities_bytes(b));
    lemma_identities_bytes_injective(a, b);
}

/// The fingerprint does not depend on the order in which the displays are
/// given, nor on their names or their geometry: two sequences of displays
/// that hold the same identities, each as often as the other, have the same
/// fingerprint.
pub proof fn lemma_fingerprint_order_independent(a: Seq<HeadView>, b: Seq<HeadView>)
    requires
        identities(a).to_multiset() == identities(b).to_multiset(),
    ensures
        fingerprint_spec(a) == fingerprint_spec(b),
{
    lemma_canonical_sort_properties(a);
    lemma_canonical_sort_properties(b);
    lemma_sorted_identities_unique(canonical_sort(a), canonical_sort(b));
}

/// Sorting keeps every length within its eight bytes.
proof fn lemma_sorted_encodable(heads: Seq<HeadView>)
    requires
        encodable(identities(heads)),
    ensures
        encodable(identities(canonical_sort(heads))),
{
    let ids = identities(heads);
    let sorted = identities(canonical_sort(heads));
    lemma_canonical_sort_properties(heads);
    assert forall|i: int| 0 <= i < sorted.len() implies fits(
        encode_utf8((#[trigger] sorted[i]).make).len(),
    ) && fits(encode_utf8(sorted[i].model).len()) && fits(encode_utf8(sorted[i].serial).len()) by {
        vstd::seq_lib::to_multiset_contains(sorted, sorted[i]);
        vstd::seq_lib::to_multiset_contains(ids, sorted[i]);
        assert(sorted.contains(sorted[i]));
        let k = choose|k: int| 0 <= k < ids.len() && ids[k] == sorted[i];
        assert(fits(encode_utf8(ids[k].make).len()));
    }
}

/// The fingerprint tells sets of displays apart. Where two sets differ in
/// any make, model or serial, or one holds a display that the other lacks,
/// what is hashed for the one differs from what is hashed for the other, so
/// their fingerprints can only agree where SHA-256 collides.
pub proof fn lemma_fingerprint_set_sensitive(a: Seq<HeadView>, b: Seq<HeadView>)
    requires
        encodable(identities(a)),
        encodable(identities(b)),
        identities(a).to_multiset() != identities(b).to_multiset(),
    ensures
        fingerprint_input(a) != fingerprint_input(b),
{
    lemma_canonical_sort_properties(a);
    lemma_canonical_sort_properties(b);
    lemma_sorted_encodable(a);
    lemma_sorted_encodable(b);
    if fingerprint_input(a) == fingerprint_input(b) {
        lemma_message_injective(
            identities(canonical_sort(a)),
            identities(canonical_sort(b)),
        );
    }
}

/// Adding an identity at the end of a list adds its bytes at the end.
proof fn lemma_identities_bytes_push(ids: Seq<Identity>, id: Identity)
    ensures
        identities_bytes(ids.push(id)) == identities_bytes(ids) + identity_bytes(id),
    decreases ids.len(),
{
    if ids.len() == 0 {
        let one = ids.push(id);
        assert(one.first() == id);
        assert(one.drop_first() =~= Seq::<Identity>::empty());
        assert(identities_bytes(one.drop_first()) =~= Seq::<u8>::empty());
        assert(identities_bytes(one) =~= identity_bytes(id));
        assert(identities_bytes(ids) + identity_bytes(id) =~= identity_bytes(id));
    } else {
        lemma_identities_bytes_push(ids.drop_first(), id);
        assert(ids.push(id).drop_first() =~= ids.drop_first().push(id));
        assert(identities_bytes(ids.push(id)) =~= identities_bytes(ids) + identity_bytes(id));
    }
}

/// Appends a length in its eight bytes.
fn push_length(out: &mut Vec<u8>, n: usize)
    ensures
        final(out)@ == old(out)@ + length_bytes(n as nat),
{
    let mut rest: u64 = n as u64;
    let mut k: usize = 0;
    proof {
        assert(out@ =~= old(out)@ + Seq::<u8>::empty());
    }
    while k < 8
        invariant
            k <= 8,
            out@ + le_bytes(rest as nat, (8 - k) as nat) == old(out)@ + length_bytes(n as nat),
        decreases 8 - k,
    {
        let ghost before = out@;
        out.push((rest % 256) as u8);
        proof {
            assert(before + le_bytes(rest as nat, (8 - k) as nat) =~= out@ + le_bytes(
                (rest / 256) as nat,
                (8 - k - 1) as nat,
            ));
        }
        rest = rest / 256;
        k += 1;
    }
    proof {
        assert(out@ + le_bytes(rest as nat, 0) =~= out@);
    }
}

/// Appends a text with its length in front.
fn push_field(out: &mut Vec<u8>, text: &str)
    ensures
        final(out)@ == old(out)@ + field_bytes(text@),
{
    let bytes = text.as_bytes();
    push_length(out, bytes.len());
    let ghost before = out@;
    let n = bytes.len();
    let mut i: usize = 0;
    proof {
        assert(out@ =~= before + bytes@.take(0));
    }
    while i < n
        invariant
            i <= n,
            n == bytes.len(),
            out@ == before + bytes@.take(i as int),
        decreases n - i,
    {
        out.push(bytes[i]);
        proof {
            assert(out@ =~= before + bytes@.take(i + 1));
        }
        i += 1;
    }
    proof {
        assert(bytes@.take(n as int) =~= bytes@);
        assert(out@ =~= old(out)@ + field_bytes(text@));
    }
}

/// The message that is hashed for the displays in the order given.
pub fn fingerprint_message(heads: &[Head]) -> (bytes: Vec<u8>)
    ensures
        bytes@ == message(identities(head_views(heads@))),
{
    let ghost ids = identities(head_views(heads@));
    let mut out: Vec<u8> = Vec::new();
    let n = heads.len();
    push_length(&mut out, n);
    let mut i: usize = 0;
    proof {
        assert(out@ =~= length_bytes(n as nat) + identities_bytes(ids.take(0)));
    }
    while i < n
        invariant
            i <= n,
            n == heads.len(),
            ids == identities(head_views(heads@)),
            out@ == length_bytes(n as nat) + identities_bytes(ids.take(i as int)),
        decreases n - i,
    {
        let ghost before = out@;
        push_field(&mut out, heads[i].make.as_str());
        push_field(&mut out, heads[i].model.as_str());
        push_field(&mut out, heads[i].serial.as_str());
        proof {
            let id = ids[i as int];
            assert(id == heads@[i as int].identity());
            assert(out@ =~= before + identity_bytes(id));
            lemma_identities_bytes_push(ids.take(i as int), id);
            assert(ids.take(i + 1) =~= ids.take(i as int).push(id));
            assert(out@ =~= length_bytes(n as nat) + identities_bytes(ids.take(i + 1)));
        }
        i += 1;
    }
    proof {
        assert(ids.take(n as int) =~= ids);
    }
    out
}

/// Computes a SHA-256 digest with `sha2::Sha256::digest`, which feeds the
/// whole of `data` to a fresh hasher and finishes it. The digest is a
/// function of the bytes alone; the contract names it and states nothing
/// else about it.
#[verifier::external_body]
fn sha256_digest(data: &[u8]) -> (digest: [u8; 32])
    ensures
        digest@ == sha256(data@),
{
    Sha256::digest(data).into()
}

/// Writes bytes in hexadecimal with `hex::encode`, which gives two
/// lower-case digits for each byte, the high four bits first.
#[verifier::external_body]
fn hex_encode(bytes: &[u8]) -> (text: String)
    ensures
        text@ == hex_text(bytes@),
{
    hex::encode(bytes)
}

/// The digest of the message for the displays in the order given. For
/// displays in the canonical order this is their fingerprint.
pub fn hash_heads(heads: &[Head]) -> (digest: [u8; 32])
    ensures
        digest@ == sha256(message(identities(head_views(heads@)))),
        is_sorted(head_views(heads@)) ==> digest@ == fingerprint_spec(head_views(heads@)),
{
    proof {
        if is_sorted(head_views(heads@)) {
            crate::sorting::lemma_canonical_sort_of_sorted(head_views(heads@));
        }
    }
    let bytes = fingerprint_message(heads);
    sha256_digest(bytes.as_slice())
}

/// The fingerprint of the displays, in whatever order they are given.
pub fn fingerprint(heads: &[Head]) -> (digest: [u8; 32])
    ensures
        digest@ == fingerprint_spec(head_views(heads@)),
{
    let mut sorted = copy_heads(heads);
    sort_heads(&mut sorted);
    hash_heads(sorted.as_slice())
}

/// The name of the file that holds the snapshot with the fingerprint
/// `digest`: the digest in hexadecimal, then `.json`.
pub fn snapshot_file_name(digest: &[u8; 32]) -> (name: String)
    ensures
        name@ == snapshot_file_name_spec(digest@),
{
    let mut name = hex_encode(digest.as_slice());
    name.append(".json");
    name
}

} // verus!
