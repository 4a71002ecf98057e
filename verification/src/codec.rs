//! The compact binary form of the registry document and its codec.
//!
//! Every value is framed explicitly: a string is its byte length as eight
//! little-endian bytes followed by its UTF-8 bytes; a list is its element
//! count in the same eight-byte form followed by its elements; optional
//! metadata is a presence byte (0 or 1) followed, when present, by the
//! description. Encoding and decoding are both verified, and decoding a
//! document that encoding produced is proved to give back the original value.

use vstd::prelude::*;

use vstd::bytes::{
    lemma_auto_spec_u64_to_from_le_bytes, spec_u64_from_le_bytes, spec_u64_to_le_bytes,
    u64_from_le_bytes, u64_to_le_bytes,
};
use vstd::slice::{slice_index_get, slice_subrange, slice_to_vec};
use vstd::utf8::{decode_utf8, encode_utf8, encode_utf8_decode_utf8, encode_utf8_valid_utf8,
    valid_utf8};

use crate::data::{Module, ModuleView, Registry, RegistryView, RepositoryMetadata, Version};
use crate::strings::string_from_utf8;

verus! {

// ---------------------------------------------------------------------------
// The encoded form, as a function of the mathematical value.
// ---------------------------------------------------------------------------
/// Eight little-endian bytes holding a length or a count.
pub open spec fn enc_len(n: u64) -> Seq<u8> {
    spec_u64_to_le_bytes(n)
}

/// A string: its UTF-8 byte length, then its UTF-8 bytes.
pub open spec fn enc_str(s: Seq<char>) -> Seq<u8> {
    enc_len(encode_utf8(s).len() as u64) + encode_utf8(s)
}

/// The version strings of a module, in order.
pub open spec fn enc_strs(vs: Seq<Seq<char>>) -> Seq<u8>
    decreases vs.len(),
{
    if vs.len() == 0 {
        Seq::empty()
    } else {
        enc_str(vs[0]) + enc_strs(vs.drop_first())
    }
}

/// A module: name, version count, versions, then the presence byte and,
/// when metadata is present, the description.
pub open spec fn enc_module(m: ModuleView) -> Seq<u8> {
    enc_str(m.name) + enc_len(m.versions.len() as u64) + enc_strs(m.versions) + (
    match m.description {
        Some(d) => seq![1u8] + enc_str(d),
        None => seq![0u8],
    })
}

/// The modules of a registry, in order.
pub open spec fn enc_modules(ms: Seq<ModuleView>) -> Seq<u8>
    decreases ms.len(),
{
    if ms.len() == 0 {
        Seq::empty()
    } else {
        enc_module(ms[0]) + enc_modules(ms.drop_first())
    }
}

/// A registry: its source location, its module count, then its modules.
pub open spec fn enc_registry(r: RegistryView) -> Seq<u8> {
    enc_str(r.url) + enc_len(r.modules.len() as u64) + enc_modules(r.modules)
}

/// A string whose byte length fits the eight-byte frame.
pub open spec fn str_encodable(s: Seq<char>) -> bool {
    encode_utf8(s).len() <= u64::MAX
}

/// A module whose strings and version count fit their frames.
pub open spec fn module_encodable(m: ModuleView) -> bool {
    &&& str_encodable(m.name)
    &&& m.versions.len() <= u64::MAX
    &&& forall|i: int| 0 <= i < m.versions.len() ==> str_encodable(#[trigger] m.versions[i])
    &&& (m.description matches Some(d) ==> str_encodable(d))
}

/// A registry whose strings and counts fit their frames.
pub open spec fn registry_encodable(r: RegistryView) -> bool {
    &&& str_encodable(r.url)
    &&& r.modules.len() <= u64::MAX
    &&& forall|i: int| 0 <= i < r.modules.len() ==> module_encodable(#[trigger] r.modules[i])
}

// ---------------------------------------------------------------------------
// The decoded value, as a function of the bytes. Each reader returns the
// value it read and the offset just past it, or nothing when the bytes are
// not a well-formed document.
// ---------------------------------------------------------------------------
pub open spec fn dec_len(d: Seq<u8>, i: int) -> Option<(u64, int)> {
    if 0 <= i && i + 8 <= d.len() {
        Some((spec_u64_from_le_bytes(d.subrange(i, i + 8)), i + 8))
    } else {
        None
    }
}

pub open spec fn dec_str(d: Seq<u8>, i: int) -> Option<(Seq<char>, int)> {
    match dec_len(d, i) {
        Some((n, j)) => if j + n <= d.len() {
            if valid_utf8(d.subrange(j, j + n)) {
                Some((decode_utf8(d.subrange(j, j + n)), j + n))
            } else {
                None
            }
        } else {
            None
        },
        None => None,
    }
}

pub open spec fn dec_strs(d: Seq<u8>, i: int, n: nat) -> Option<(Seq<Seq<char>>, int)>
    decreases n,
{
    if n == 0 {
        Some((Seq::empty(), i))
    } else {
        match dec_str(d, i) {
            Some((s, j)) => match dec_strs(d, j, (n - 1) as nat) {
                Some((ss, k)) => Some((seq![s] + ss, k)),
                None => None,
            },
            None => None,
        }
    }
}

pub open spec fn dec_module_at(d: Seq<u8>, i: int) -> Option<(ModuleView, int)> {
    match dec_str(d, i) {
        Some((name, j)) => match dec_len(d, j) {
            Some((n, k)) => match dec_strs(d, k, n as nat) {
                Some((versions, l)) => if 0 <= l && l < d.len() {
                    if d[l] == 0 {
                        Some((ModuleView { name, versions, description: None }, l + 1))
                    } else if d[l] == 1 {
                        match dec_str(d, l + 1) {
                            Some((desc, e)) => Some(
                                (ModuleView { name, versions, description: Some(desc) }, e),
                            ),
                            None => None,
                        }
                    } else {
                        None
                    }
                } else {
                    None
                },
                None => None,
            },
            None => None,
        },
        None => None,
    }
}

pub open spec fn dec_modules(d: Seq<u8>, i: int, n: nat) -> Option<(Seq<ModuleView>, int)>
    decreases n,
{
    if n == 0 {
        Some((Seq::empty(), i))
    } else {
        match dec_module_at(d, i) {
            Some((m, j)) => match dec_modules(d, j, (n - 1) as nat) {
                Some((ms, k)) => Some((seq![m] + ms, k)),
                None => None,
            },
            None => None,
        }
    }
}

pub open spec fn dec_registry_at(d: Seq<u8>, i: int) -> Option<(RegistryView, int)> {
    match dec_str(d, i) {
        Some((url, j)) => match dec_len(d, j) {
            Some((n, k)) => match dec_modules(d, k, n as nat) {
                Some((modules, e)) => Some((RegistryView { url, modules }, e)),
                None => None,
            },
            None => None,
        },
        None => None,
    }
}

/// A whole buffer as one module document: the module must consume it exactly.
pub open spec fn dec_module(d: Seq<u8>) -> Option<ModuleView> {
    match dec_module_at(d, 0) {
        Some((m, e)) => if e == d.len() {
            Some(m)
        } else {
            None
        },
        None => None,
    }
}

/// A whole buffer as one registry document: it must be consumed exactly.
pub open spec fn dec_registry(d: Seq<u8>) -> Option<RegistryView> {
    match dec_registry_at(d, 0) {
        Some((r, e)) => if e == d.len() {
            Some(r)
        } else {
            None
        },
        None => None,
    }
}

// ---------------------------------------------------------------------------
// Round trip: decoding reads back whatever encoding wrote.
// ---------------------------------------------------------------------------
/// A window of `d` that holds `l` decomposes: any sub-window of it equals the
/// matching sub-window of `l`.
proof fn lemma_subrange_of_subrange(d: Seq<u8>, i: int, l: Seq<u8>, a: int, b: int)
    requires
        0 <= i,
        i + l.len() <= d.len(),
        d.subrange(i, i + l.len()) == l,
        0 <= a <= b <= l.len(),
    ensures
        d.subrange(i + a, i + b) == l.subrange(a, b),
{
    assert forall|k: int| 0 <= k < b - a implies d.subrange(i + a, i + b)[k] == l.subrange(
        a,
        b,
    )[k] by {
        assert(d.subrange(i, i + l.len() as int)[a + k] == l[a + k]);
    }
    assert(d.subrange(i + a, i + b) =~= l.subrange(a, b));
}

/// One byte of a window of `d` that holds `l` equals the matching byte of `l`.
proof fn lemma_byte_of_subrange(d: Seq<u8>, i: int, l: Seq<u8>, a: int)
    requires
        0 <= i,
        i + l.len() <= d.len(),
        d.subrange(i, i + l.len()) == l,
        0 <= a < l.len(),
    ensures
        d[i + a] == l[a],
{
    assert(d.subrange(i, i + l.len() as int)[a] == l[a]);
}

proof fn lemma_dec_len(d: Seq<u8>, i: int, n: u64)
    requires
        0 <= i,
        i + 8 <= d.len(),
        d.subrange(i, i + 8) == enc_len(n),
    ensures
        dec_len(d, i) == Some((n, i + 8)),
{
    lemma_auto_spec_u64_to_from_le_bytes();
}

proof fn lemma_dec_str(d: Seq<u8>, i: int, s: Seq<char>)
    requires
        0 <= i,
        str_encodable(s),
        i + enc_str(s).len() <= d.len(),
        d.subrange(i, i + enc_str(s).len()) == enc_str(s),
    ensures
        dec_str(d, i) == Some((s, i + enc_str(s).len())),
{
    let b = encode_utf8(s);
    let n = b.len() as u64;
    let w = enc_str(s);
    lemma_auto_spec_u64_to_from_le_bytes();
    assert(enc_len(n).len() == 8);
    assert(w.len() == 8 + b.len());
    lemma_subrange_of_subrange(d, i, w, 0, 8);
    assert(w.subrange(0, 8) =~= enc_len(n));
    lemma_dec_len(d, i, n);
    lemma_subrange_of_subrange(d, i, w, 8, w.len() as int);
    assert(w.subrange(8, w.len() as int) =~= b);
    encode_utf8_valid_utf8(s);
    encode_utf8_decode_utf8(s);
    assert(d.subrange(i + 8, i + 8 + n as int) == b);
}

proof fn lemma_dec_strs(d: Seq<u8>, i: int, vs: Seq<Seq<char>>)
    requires
        0 <= i,
        forall|k: int| 0 <= k < vs.len() ==> str_encodable(#[trigger] vs[k]),
        i + enc_strs(vs).len() <= d.len(),
        d.subrange(i, i + enc_strs(vs).len()) == enc_strs(vs),
    ensures
        dec_strs(d, i, vs.len() as nat) == Some((vs, i + enc_strs(vs).len())),
    decreases vs.len(),
{
    if vs.len() == 0 {
        assert(vs =~= Seq::<Seq<char>>::empty());
    } else {
        let s0 = vs[0];
        let rest = vs.drop_first();
        let w = enc_strs(vs);
        let l0 = enc_str(s0).len() as int;
        let l1 = enc_strs(rest).len() as int;
        assert(w == enc_str(s0) + enc_strs(rest));
        lemma_subrange_of_subrange(d, i, w, 0, l0);
        assert(w.subrange(0, l0) =~= enc_str(s0));
        lemma_dec_str(d, i, s0);
        lemma_subrange_of_subrange(d, i, w, l0, l0 + l1);
        assert(w.subrange(l0, l0 + l1) =~= enc_strs(rest));
        lemma_dec_strs(d, i + l0, rest);
        assert(seq![s0] + rest =~= vs);
    }
}

proof fn lemma_dec_module(d: Seq<u8>, i: int, m: ModuleView)
    requires
        0 <= i,
        module_encodable(m),
        i + enc_module(m).len() <= d.len(),
        d.subrange(i, i + enc_module(m).len()) == enc_module(m),
    ensures
        dec_module_at(d, i) == Some((m, i + enc_module(m).len())),
{
    let w = enc_module(m);
    let n = m.versions.len() as u64;
    let l0 = enc_str(m.name).len() as int;
    let l1 = enc_strs(m.versions).len() as int;
    let tail = (match m.description {
        Some(d0) => seq![1u8] + enc_str(d0),
        None => seq![0u8],
    });
    lemma_auto_spec_u64_to_from_le_bytes();
    assert(w == enc_str(m.name) + enc_len(n) + enc_strs(m.versions) + tail);
    lemma_subrange_of_subrange(d, i, w, 0, l0);
    assert(w.subrange(0, l0) =~= enc_str(m.name));
    lemma_dec_str(d, i, m.name);
    lemma_subrange_of_subrange(d, i, w, l0, l0 + 8);
    assert(w.subrange(l0, l0 + 8) =~= enc_len(n));
    lemma_dec_len(d, i + l0, n);
    lemma_subrange_of_subrange(d, i, w, l0 + 8, l0 + 8 + l1);
    assert(w.subrange(l0 + 8, l0 + 8 + l1) =~= enc_strs(m.versions));
    lemma_dec_strs(d, i + l0 + 8, m.versions);
    assert(n as nat == m.versions.len());
    let l = i + l0 + 8 + l1;
    lemma_byte_of_subrange(d, i, w, l0 + 8 + l1);
    assert(w[l0 + 8 + l1] == tail[0]);
    match m.description {
        Some(desc) => {
            assert(d[l] == 1u8);
            lemma_subrange_of_subrange(d, i, w, l0 + 8 + l1 + 1, w.len() as int);
            assert(w.subrange(l0 + 8 + l1 + 1, w.len() as int) =~= enc_str(desc));
            lemma_dec_str(d, l + 1, desc);
            assert(dec_module_at(d, i) == Some((m, i + w.len())));
        },
        None => {
            assert(d[l] == 0u8);
            assert(dec_module_at(d, i) == Some((m, i + w.len())));
        },
    }
}

proof fn lemma_dec_modules(d: Seq<u8>, i: int, ms: Seq<ModuleView>)
    requires
        0 <= i,
        forall|k: int| 0 <= k < ms.len() ==> module_encodable(#[trigger] ms[k]),
        i + enc_modules(ms).len() <= d.len(),
        d.subrange(i, i + enc_modules(ms).len()) == enc_modules(ms),
    ensures
        dec_modules(d, i, ms.len() as nat) == Some((ms, i + enc_modules(ms).len())),
    decreases ms.len(),
{
    if ms.len() == 0 {
        assert(ms =~= Seq::<ModuleView>::empty());
    } else {
        let m0 = ms[0];
        let rest = ms.drop_first();
        let w = enc_modules(ms);
        let l0 = enc_module(m0).len() as int;
        let l1 = enc_modules(rest).len() as int;
        assert(w == enc_module(m0) + enc_modules(rest));
        lemma_subrange_of_subrange(d, i, w, 0, l0);
        assert(w.subrange(0, l0) =~= enc_module(m0));
        lemma_dec_module(d, i, m0);
        lemma_subrange_of_subrange(d, i, w, l0, l0 + l1);
        assert(w.subrange(l0, l0 + l1) =~= enc_modules(rest));
        lemma_dec_modules(d, i + l0, rest);
        assert(seq![m0] + rest =~= ms);
    }
}

proof fn lemma_enc_strs_push(vs: Seq<Seq<char>>, s: Seq<char>)
    ensures
        enc_strs(vs.push(s)) == enc_strs(vs) + enc_str(s),
    decreases vs.len(),
{
    if vs.len() == 0 {
        assert(vs.push(s).drop_first() =~= Seq::<Seq<char>>::empty());
        assert(enc_str(s) + enc_strs(Seq::empty()) =~= enc_strs(vs) + enc_str(s));
    } else {
        assert(vs.push(s).drop_first() =~= vs.drop_first().push(s));
        lemma_enc_strs_push(vs.drop_first(), s);
        assert(enc_str(vs[0]) + (enc_strs(vs.drop_first()) + enc_str(s)) =~= (enc_str(vs[0])
            + enc_strs(vs.drop_first())) + enc_str(s));
    }
}

proof fn lemma_enc_modules_push(ms: Seq<ModuleView>, m: ModuleView)
    ensures
        enc_modules(ms.push(m)) == enc_modules(ms) + enc_module(m),
    decreases ms.len(),
{
    if ms.len() == 0 {
        assert(ms.push(m).drop_first() =~= Seq::<ModuleView>::empty());
        assert(enc_module(m) + enc_modules(Seq::empty()) =~= enc_modules(ms) + enc_module(m));
    } else {
        assert(ms.push(m).drop_first() =~= ms.drop_first().push(m));
        lemma_enc_modules_push(ms.drop_first(), m);
        assert(enc_module(ms[0]) + (enc_modules(ms.drop_first()) + enc_module(m)) =~= (enc_module(
            ms[0],
        ) + enc_modules(ms.drop_first())) + enc_module(m));
    }
}

/// Law: decoding the compact binary form of a module gives that module back.
pub proof fn lemma_module_round_trip(m: ModuleView)
    requires
        module_encodable(m),
    ensures
        dec_module(enc_module(m)) == Some(m),
{
    let d = enc_module(m);
    assert(d.subrange(0, d.len() as int) =~= d);
    lemma_dec_module(d, 0, m);
}

/// Law: decoding the compact binary form of a registry gives it back.
pub proof fn lemma_registry_round_trip(r: RegistryView)
    requires
        registry_encodable(r),
    ensures
        dec_registry(enc_registry(r)) == Some(r),
{
    let d = enc_registry(r);
    let n = r.modules.len() as u64;
    let l0 = enc_str(r.url).len() as int;
    let l1 = enc_modules(r.modules).len() as int;
    lemma_auto_spec_u64_to_from_le_bytes();
    assert(d.subrange(0, d.len() as int) =~= d);
    lemma_subrange_of_subrange(d, 0, d, 0, l0);
    assert(d.subrange(0, l0) =~= enc_str(r.url));
    lemma_dec_str(d, 0, r.url);
    lemma_subrange_of_subrange(d, 0, d, l0, l0 + 8);
    assert(d.subrange(l0, l0 + 8) =~= enc_len(n));
    lemma_dec_len(d, l0, n);
    lemma_subrange_of_subrange(d, 0, d, l0 + 8, l0 + 8 + l1);
    assert(d.subrange(l0 + 8, l0 + 8 + l1) =~= enc_modules(r.modules));
    lemma_dec_modules(d, l0 + 8, r.modules);
    assert(n as nat == r.modules.len());
}

// ---------------------------------------------------------------------------
// The executable encoder.
// ---------------------------------------------------------------------------
fn push_bytes(out: &mut Vec<u8>, b: &[u8])
    ensures
        final(out)@ == old(out)@ + b@,
{
    let mut k: usize = 0;
    while k < b.len()
        invariant
            k <= b.len(),
            out@ == old(out)@ + b@.take(k as int),
        decreases b.len() - k,
    {
        out.push(*slice_index_get(b, k));
        proof {
            assert((old(out)@ + b@.take(k as int)).push(b@[k as int]) =~= old(out)@ + b@.take(
                k as int + 1,
            ));
        }
        k += 1;
    }
    proof {
        assert(b@.take(b@.len() as int) =~= b@);
    }
}

/// Appends the framed form of one string.
fn push_str(out: &mut Vec<u8>, s: &str)
    ensures
        final(out)@ == old(out)@ + enc_str(s@),
        str_encodable(s@),
{
    let b: &[u8] = s.as_bytes();
    let len_bytes = u64_to_le_bytes(b.len() as u64);
    push_bytes(out, len_bytes.as_slice());
    push_bytes(out, b);
    proof {
        assert((old(out)@ + enc_len(b@.len() as u64)) + b@ =~= old(out)@ + enc_str(s@));
    }
}

/// The compact binary form of one module.
pub fn encode_module(m: &Module) -> (r: Vec<u8>)
    ensures
        r@ == enc_module(m@),
        module_encodable(m@),
{
    let mut out: Vec<u8> = Vec::new();
    push_str(&mut out, m.name.as_str());
    let count_bytes = u64_to_le_bytes(m.versions.len() as u64);
    push_bytes(&mut out, count_bytes.as_slice());
    let ghost head = enc_str(m@.name) + enc_len(m@.versions.len() as u64);
    proof {
        assert(out@ =~= head + enc_strs(m@.versions.take(0)));
    }
    let mut i: usize = 0;
    while i < m.versions.len()
        invariant
            i <= m.versions.len(),
            head == enc_str(m@.name) + enc_len(m@.versions.len() as u64),
            out@ == head + enc_strs(m@.versions.take(i as int)),
            forall|k: int| 0 <= k < i as int ==> str_encodable(#[trigger] m@.versions[k]),
        decreases m.versions.len() - i,
    {
        proof {
            assert(m@.versions[i as int] == m.versions@[i as int]@);
        }
        push_str(&mut out, m.versions[i].version.as_str());
        proof {
            lemma_enc_strs_push(m@.versions.take(i as int), m@.versions[i as int]);
            assert(m@.versions.take(i as int).push(m@.versions[i as int]) =~= m@.versions.take(
                i as int + 1,
            ));
            assert((head + enc_strs(m@.versions.take(i as int))) + enc_str(m@.versions[i as int])
                =~= head + (enc_strs(m@.versions.take(i as int)) + enc_str(
                m@.versions[i as int],
            )));
        }
        i += 1;
    }
    proof {
        assert(m@.versions.take(m.versions@.len() as int) =~= m@.versions);
    }
    match &m.repository_metadata {
        None => {
            out.push(0u8);
            proof {
                assert(out@ =~= enc_module(m@));
            }
        },
        Some(md) => {
            out.push(1u8);
            let ghost mid = out@;
            push_str(&mut out, md.description.as_str());
            proof {
                assert(mid =~= (head + enc_strs(m@.versions)) + seq![1u8]);
                assert(out@ =~= enc_module(m@));
            }
        },
    }
    out
}

/// The compact binary form of a whole registry document.
pub fn encode_registry(reg: &Registry) -> (r: Vec<u8>)
    ensures
        r@ == enc_registry(reg@),
        registry_encodable(reg@),
{
    let mut out: Vec<u8> = Vec::new();
    push_str(&mut out, reg.registry_url.as_str());
    let count_bytes = u64_to_le_bytes(reg.modules.len() as u64);
    push_bytes(&mut out, count_bytes.as_slice());
    let ghost head = enc_str(reg@.url) + enc_len(reg@.modules.len() as u64);
    proof {
        assert(out@ =~= head + enc_modules(reg@.modules.take(0)));
    }
    let mut i: usize = 0;
    while i < reg.modules.len()
        invariant
            i <= reg.modules.len(),
            head == enc_str(reg@.url) + enc_len(reg@.modules.len() as u64),
            out@ == head + enc_modules(reg@.modules.take(i as int)),
            forall|k: int| 0 <= k < i as int ==> module_encodable(#[trigger] reg@.modules[k]),
        decreases reg.modules.len() - i,
    {
        proof {
            assert(reg@.modules[i as int] == reg.modules@[i as int]@);
        }
        let piece = encode_module(&reg.modules[i]);
        push_bytes(&mut out, piece.as_slice());
        proof {
            lemma_enc_modules_push(reg@.modules.take(i as int), reg@.modules[i as int]);
            assert(reg@.modules.take(i as int).push(reg@.modules[i as int]) =~= reg@.modules.take(
                i as int + 1,
            ));
            assert((head + enc_modules(reg@.modules.take(i as int))) + enc_module(
                reg@.modules[i as int],
            ) =~= head + (enc_modules(reg@.modules.take(i as int)) + enc_module(
                reg@.modules[i as int],
            )));
        }
        i += 1;
    }
    proof {
        assert(reg@.modules.take(reg.modules@.len() as int) =~= reg@.modules);
        assert(out@ =~= enc_registry(reg@));
    }
    out
}

// ---------------------------------------------------------------------------
// The executable decoder. Each reader agrees exactly with its mathematical
// counterpart: it returns a value precisely when the bytes are well-formed
// there, and then it returns the decoded value.
// ---------------------------------------------------------------------------
fn read_len(d: &[u8], i: usize) -> (r: Option<(u64, usize)>)
    ensures
        r matches Some((n, j)) ==> dec_len(d@, i as int) == Some((n, j as int)),
        r is None ==> dec_len(d@, i as int) is None,
{
    if i <= d.len() && d.len() - i >= 8 {
        let s8 = slice_subrange(d, i, i + 8);
        let n = u64_from_le_bytes(s8);
        Some((n, i + 8))
    } else {
        None
    }
}

fn read_str(d: &[u8], i: usize) -> (r: Option<(String, usize)>)
    ensures
        r matches Some((s, j)) ==> dec_str(d@, i as int) == Some((s@, j as int)),
        r is None ==> dec_str(d@, i as int) is None,
{
    match read_len(d, i) {
        None => None,
        Some((n, j)) => {
            if n <= (d.len() - j) as u64 {
                let n_us = n as usize;
                let sub = slice_subrange(d, j, j + n_us);
                let v = slice_to_vec(sub);
                match string_from_utf8(v) {
                    Some(s) => {
                        proof {
                            encode_utf8_decode_utf8(s@);
                        }
                        Some((s, j + n_us))
                    },
                    None => None,
                }
            } else {
                None
            }
        },
    }
}

/// What the whole read yields, given what was read so far and what remains.
spec fn with_read_strs(acc: Seq<Seq<char>>, rest: Option<(Seq<Seq<char>>, int)>) -> Option<
    (Seq<Seq<char>>, int),
> {
    match rest {
        Some((ss, e)) => Some((acc + ss, e)),
        None => None,
    }
}

fn read_versions(d: &[u8], i: usize, n: u64) -> (r: Option<(Vec<Version>, usize)>)
    ensures
        r matches Some((vs, j)) ==> dec_strs(d@, i as int, n as nat) == Some(
            (vs@.map_values(|v: Version| v@), j as int),
        ),
        r is None ==> dec_strs(d@, i as int, n as nat) is None,
{
    let ghost whole = dec_strs(d@, i as int, n as nat);
    let mut out: Vec<Version> = Vec::new();
    let mut pos: usize = i;
    let mut k: u64 = 0;
    proof {
        assert(out@.map_values(|v: Version| v@) =~= Seq::<Seq<char>>::empty());
        match whole {
            Some((ss, e)) => {
                assert(Seq::<Seq<char>>::empty() + ss =~= ss);
            },
            None => {},
        }
    }
    while k < n
        invariant
            k <= n,
            whole == dec_strs(d@, i as int, n as nat),
            whole == with_read_strs(
                out@.map_values(|v: Version| v@),
                dec_strs(d@, pos as int, (n - k) as nat),
            ),
        decreases n - k,
    {
        match read_str(d, pos) {
            None => {
                return None;
            },
            Some((s, j)) => {
                let ghost old_map = out@.map_values(|v: Version| v@);
                proof {
                    match dec_strs(d@, j as int, (n - k - 1) as nat) {
                        Some((ss, e)) => {
                            assert(old_map + (seq![s@] + ss) =~= old_map.push(s@) + ss);
                        },
                        None => {},
                    }
                }
                out.push(Version { version: s });
                proof {
                    assert(out@.map_values(|v: Version| v@) =~= old_map.push(s@));
                }
                pos = j;
                k = k + 1;
            },
        }
    }
    proof {
        match dec_strs(d@, pos as int, 0) {
            Some((ss, e)) => {
                assert(out@.map_values(|v: Version| v@) + ss =~= out@.map_values(
                    |v: Version| v@,
                ));
            },
            None => {},
        }
    }
    Some((out, pos))
}

fn read_module(d: &[u8], i: usize) -> (r: Option<(Module, usize)>)
    ensures
        r matches Some((m, j)) ==> dec_module_at(d@, i as int) == Some((m@, j as int)),
        r is None ==> dec_module_at(d@, i as int) is None,
{
    let (name, j) = match read_str(d, i) {
        None => {
            return None;
        },
        Some(x) => x,
    };
    let (n, k) = match read_len(d, j) {
        None => {
            return None;
        },
        Some(x) => x,
    };
    let (versions, l) = match read_versions(d, k, n) {
        None => {
            return None;
        },
        Some(x) => x,
    };
    if l >= d.len() {
        return None;
    }
    let flag = *slice_index_get(d, l);
    if flag == 0 {
        Some((Module { name, versions, repository_metadata: None }, l + 1))
    } else if flag == 1 {
        match read_str(d, l + 1) {
            None => None,
            Some((desc, e)) => Some(
                (
                    Module {
                        name,
                        versions,
                        repository_metadata: Some(RepositoryMetadata { description: desc }),
                    },
                    e,
                ),
            ),
        }
    } else {
        None
    }
}

/// What the whole read yields, given what was read so far and what remains.
spec fn with_read_modules(acc: Seq<ModuleView>, rest: Option<(Seq<ModuleView>, int)>) -> Option<
    (Seq<ModuleView>, int),
> {
    match rest {
        Some((ms, e)) => Some((acc + ms, e)),
        None => None,
    }
}

fn read_modules(d: &[u8], i: usize, n: u64) -> (r: Option<(Vec<Module>, usize)>)
    ensures
        r matches Some((ms, j)) ==> dec_modules(d@, i as int, n as nat) == Some(
            (ms@.map_values(|m: Module| m@), j as int),
        ),
        r is None ==> dec_modules(d@, i as int, n as nat) is None,
{
    let ghost whole = dec_modules(d@, i as int, n as nat);
    let mut out: Vec<Module> = Vec::new();
    let mut pos: usize = i;
    let mut k: u64 = 0;
    proof {
        assert(out@.map_values(|m: Module| m@) =~= Seq::<ModuleView>::empty());
        match whole {
            Some((ms, e)) => {
                assert(Seq::<ModuleView>::empty() + ms =~= ms);
            },
            None => {},
        }
    }
    while k < n
        invariant
            k <= n,
            whole == dec_modules(d@, i as int, n as nat),
            whole == with_read_modules(
                out@.map_values(|m: Module| m@),
                dec_modules(d@, pos as int, (n - k) as nat),
            ),
        decreases n - k,
    {
        match read_module(d, pos) {
            None => {
                return None;
            },
            Some((m, j)) => {
                let ghost old_map = out@.map_values(|m0: Module| m0@);
                let ghost mv = m@;
                proof {
                    match dec_modules(d@, j as int, (n - k - 1) as nat) {
                        Some((ms, e)) => {
                            assert(old_map + (seq![mv] + ms) =~= old_map.push(mv) + ms);
                        },
                        None => {},
                    }
                }
                out.push(m);
                proof {
                    assert(out@.map_values(|m0: Module| m0@) =~= old_map.push(mv));
                }
                pos = j;
                k = k + 1;
            },
        }
    }
    proof {
        match dec_modules(d@, pos as int, 0) {
            Some((ms, e)) => {
                assert(out@.map_values(|m: Module| m@) + ms =~= out@.map_values(
                    |m: Module| m@,
                ));
            },
            None => {},
        }
    }
    Some((out, pos))
}

/// Decodes one module document; the bytes must hold exactly one module.
pub fn decode_module(d: &[u8]) -> (r: Option<Module>)
    ensures
        r matches Some(m) ==> dec_module(d@) == Some(m@),
        r is None ==> dec_module(d@) is None,
{
    match read_module(d, 0) {
        None => None,
        Some((m, e)) => {
            if e == d.len() {
                Some(m)
            } else {
                None
            }
        },
    }
}

/// Decodes one registry document; the bytes must hold exactly one registry.
pub fn decode_registry(d: &[u8]) -> (r: Option<Registry>)
    ensures
        r matches Some(reg) ==> dec_registry(d@) == Some(reg@),
        r is None ==> dec_registry(d@) is None,
{
    let (url, j) = match read_str(d, 0) {
        None => {
            return None;
        },
        Some(x) => x,
    };
    let (n, k) = match read_len(d, j) {
        None => {
            return None;
        },
        Some(x) => x,
    };
    let (modules, e) = match read_modules(d, k, n) {
        None => {
            return None;
        },
        Some(x) => x,
    };
    if e == d.len() {
        Some(Registry { registry_url: url, modules })
    } else {
        None
    }
}

} // verus!
