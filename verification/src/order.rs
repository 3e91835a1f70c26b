use vstd::prelude::*;

use vstd::utf8::{decode_utf8, encode_utf8, encode_utf8_decode_utf8};

use crate::ast::TargetDecl;

verus! {

// ---------------------------------------------------------------------------
// The order of names: `String`'s order, which compares the UTF-8 bytes
// lexicographically.

/// Lexicographic order on byte strings; a proper prefix comes first.
pub open spec fn bytes_lt(a: Seq<u8>, b: Seq<u8>) -> bool
    decreases a.len(),
{
    if a.len() == 0 {
        b.len() > 0
    } else if b.len() == 0 {
        false
    } else if a[0] != b[0] {
        a[0] < b[0]
    } else {
        bytes_lt(a.drop_first(), b.drop_first())
    }
}

/// The order of names: by their UTF-8 encodings.
pub open spec fn name_lt(x: Seq<char>, y: Seq<char>) -> bool {
    bytes_lt(encode_utf8(x), encode_utf8(y))
}

pub proof fn lemma_bytes_lt_irreflexive(a: Seq<u8>)
    ensures
        !bytes_lt(a, a),
    decreases a.len(),
{
    if a.len() > 0 {
        lemma_bytes_lt_irreflexive(a.drop_first());
    }
}

pub proof fn lemma_bytes_lt_transitive(a: Seq<u8>, b: Seq<u8>, c: Seq<u8>)
    requires
        bytes_lt(a, b),
        bytes_lt(b, c),
    ensures
        bytes_lt(a, c),
    decreases a.len(),
{
    if a.len() > 0 && b.len() > 0 && c.len() > 0 && a[0] == b[0] && b[0] == c[0] {
        lemma_bytes_lt_transitive(a.drop_first(), b.drop_first(), c.drop_first());
    }
}

pub proof fn lemma_bytes_lt_total(a: Seq<u8>, b: Seq<u8>)
    requires
        a != b,
    ensures
        bytes_lt(a, b) || bytes_lt(b, a),
    decreases a.len(),
{
    if a.len() == 0 {
        assert(b.len() > 0) by {
            if b.len() == 0 {
                assert(a =~= b);
            }
        }
    } else if b.len() > 0 && a[0] == b[0] {
        if a.drop_first() == b.drop_first() {
            assert(a =~= seq![a[0]] + a.drop_first());
            assert(b =~= seq![b[0]] + b.drop_first());
        }
        lemma_bytes_lt_total(a.drop_first(), b.drop_first());
    }
}

pub proof fn lemma_name_lt_irreflexive(x: Seq<char>)
    ensures
        !name_lt(x, x),
{
    lemma_bytes_lt_irreflexive(encode_utf8(x));
}

pub proof fn lemma_name_lt_transitive(x: Seq<char>, y: Seq<char>, z: Seq<char>)
    requires
        name_lt(x, y),
        name_lt(y, z),
    ensures
        name_lt(x, z),
{
    lemma_bytes_lt_transitive(encode_utf8(x), encode_utf8(y), encode_utf8(z));
}

pub proof fn lemma_name_lt_total(x: Seq<char>, y: Seq<char>)
    requires
        x != y,
    ensures
        name_lt(x, y) || name_lt(y, x),
{
    if encode_utf8(x) == encode_utf8(y) {
        encode_utf8_decode_utf8(x);
        encode_utf8_decode_utf8(y);
        assert(decode_utf8(encode_utf8(x)) == decode_utf8(encode_utf8(y)));
    } else {
        lemma_bytes_lt_total(encode_utf8(x), encode_utf8(y));
    }
}

/// `bytes_lt` on two byte slices.
pub fn bytes_less(a: &[u8], b: &[u8]) -> (r: bool)
    ensures
        r == bytes_lt(a@, b@),
{
    let mut i: usize = 0;
    assert(a@.subrange(0, a@.len() as int) =~= a@);
    assert(b@.subrange(0, b@.len() as int) =~= b@);
    while i < a.len() && i < b.len()
        invariant
            i <= a@.len(),
            i <= b@.len(),
            bytes_lt(a@, b@) == bytes_lt(
                a@.subrange(i as int, a@.len() as int),
                b@.subrange(i as int, b@.len() as int),
            ),
        decreases a@.len() - i,
    {
        let ghost ra = a@.subrange(i as int, a@.len() as int);
        let ghost rb = b@.subrange(i as int, b@.len() as int);
        assert(ra[0] == a@[i as int]);
        assert(rb[0] == b@[i as int]);
        if a[i] != b[i] {
            return a[i] < b[i];
        }
        assert(ra.drop_first() =~= a@.subrange(i + 1, a@.len() as int));
        assert(rb.drop_first() =~= b@.subrange(i + 1, b@.len() as int));
        i += 1;
    }
    i == a.len() && i < b.len()
}

/// `name_lt` on two strings.
pub fn name_less(x: &String, y: &String) -> (r: bool)
    ensures
        r == name_lt(x@, y@),
{
    let a = x.as_str().as_bytes();
    let b = y.as_str().as_bytes();
    bytes_less(a, b)
}

// ---------------------------------------------------------------------------
// Declared locations, by name, in `TargetDecl`'s derived order: variables
// before arrays, each kind by name.

/// A declared location as a plain value.
pub enum DeclV {
    Variable(Seq<char>),
    Array(Seq<char>),
}

impl View for TargetDecl {
    type V = DeclV;

    open spec fn view(&self) -> DeclV {
        match self {
            TargetDecl::Variable(v) => DeclV::Variable(v.0@),
            TargetDecl::Array(a) => DeclV::Array(a.0@),
        }
    }
}

pub open spec fn decl_lt(a: DeclV, b: DeclV) -> bool {
    match (a, b) {
        (DeclV::Variable(x), DeclV::Variable(y)) => name_lt(x, y),
        (DeclV::Variable(_), DeclV::Array(_)) => true,
        (DeclV::Array(_), DeclV::Variable(_)) => false,
        (DeclV::Array(x), DeclV::Array(y)) => name_lt(x, y),
    }
}

pub proof fn lemma_decl_lt_irreflexive(a: DeclV)
    ensures
        !decl_lt(a, a),
{
    match a {
        DeclV::Variable(x) => lemma_name_lt_irreflexive(x),
        DeclV::Array(x) => lemma_name_lt_irreflexive(x),
    }
}

pub proof fn lemma_decl_lt_transitive(a: DeclV, b: DeclV, c: DeclV)
    requires
        decl_lt(a, b),
        decl_lt(b, c),
    ensures
        decl_lt(a, c),
{
    match (a, b, c) {
        (DeclV::Variable(x), DeclV::Variable(y), DeclV::Variable(z)) => lemma_name_lt_transitive(x, y, z),
        (DeclV::Array(x), DeclV::Array(y), DeclV::Array(z)) => lemma_name_lt_transitive(x, y, z),
        _ => {},
    }
}

pub proof fn lemma_decl_lt_total(a: DeclV, b: DeclV)
    requires
        a != b,
    ensures
        decl_lt(a, b) || decl_lt(b, a),
{
    match (a, b) {
        (DeclV::Variable(x), DeclV::Variable(y)) => lemma_name_lt_total(x, y),
        (DeclV::Array(x), DeclV::Array(y)) => lemma_name_lt_total(x, y),
        _ => {},
    }
}

/// `decl_lt` on two declarations.
pub fn decl_less(a: &TargetDecl, b: &TargetDecl) -> (r: bool)
    ensures
        r == decl_lt(a@, b@),
{
    match (a, b) {
        (TargetDecl::Variable(x), TargetDecl::Variable(y)) => name_less(&x.0, &y.0),
        (TargetDecl::Variable(_), TargetDecl::Array(_)) => true,
        (TargetDecl::Array(_), TargetDecl::Variable(_)) => false,
        (TargetDecl::Array(x), TargetDecl::Array(y)) => name_less(&x.0, &y.0),
    }
}

/// Whether two declarations name the same location.
pub fn decl_same(a: &TargetDecl, b: &TargetDecl) -> (r: bool)
    ensures
        r == (a@ == b@),
{
    match (a, b) {
        (TargetDecl::Variable(x), TargetDecl::Variable(y)) => x.0 == y.0,
        (TargetDecl::Array(x), TargetDecl::Array(y)) => x.0 == y.0,
        _ => false,
    }
}

// ---------------------------------------------------------------------------
// Strictly sorted lists of declarations, used as sets.

pub open spec fn decls_view(v: Seq<TargetDecl>) -> Seq<DeclV> {
    v.map_values(|d: TargetDecl| d@)
}

pub open spec fn strictly_sorted(s: Seq<DeclV>) -> bool {
    forall|i: int, j: int| 0 <= i < j < s.len() ==> decl_lt(#[trigger] s[i], #[trigger] s[j])
}

/// The elements of a sequence, as a set.
pub open spec fn elems(s: Seq<DeclV>) -> Set<DeclV> {
    Set::new(|x: DeclV| s.contains(x))
}

/// Adds `d` to a strictly sorted list, keeping it strictly sorted.
pub fn insert_sorted(acc: &mut Vec<TargetDecl>, d: TargetDecl)
    requires
        strictly_sorted(decls_view(old(acc)@)),
    ensures
        strictly_sorted(decls_view(final(acc)@)),
        elems(decls_view(final(acc)@)) == elems(decls_view(old(acc)@)).insert(d@),
{
    let ghost old_v = decls_view(acc@);
    let mut k: usize = 0;
    while k < acc.len() && decl_less(&acc[k], &d)
        invariant
            k <= acc@.len(),
            old_v == decls_view(acc@),
            forall|j: int| 0 <= j < k ==> decl_lt(#[trigger] old_v[j], d@),
        decreases acc@.len() - k,
    {
        k += 1;
    }
    if k < acc.len() && decl_same(&acc[k], &d) {
        assert(old_v[k as int] == d@);
        assert(elems(old_v).insert(d@) =~= elems(old_v));
        return;
    }
    let ghost dv = d@;
    acc.insert(k, d);
    let ghost new_v = decls_view(acc@);
    assert(new_v =~= old_v.insert(k as int, dv));
    proof {
        if k < old_v.len() {
            assert(!decl_lt(old_v[k as int], dv));
            lemma_decl_lt_total(old_v[k as int], dv);
            assert(decl_lt(dv, old_v[k as int]));
        }
        assert forall|i: int, j: int| 0 <= i < j < new_v.len() implies decl_lt(
            #[trigger] new_v[i],
            #[trigger] new_v[j],
        ) by {
            if j < k {
                assert(decl_lt(old_v[i], old_v[j]));
            } else if j == k {
                assert(decl_lt(old_v[i], dv));
            } else if i == k {
                if j - 1 > k {
                    assert(decl_lt(old_v[k as int], old_v[j - 1]));
                    lemma_decl_lt_transitive(dv, old_v[k as int], old_v[j - 1]);
                }
            } else if i < k {
                assert(decl_lt(old_v[i], old_v[j - 1]));
            } else {
                assert(decl_lt(old_v[i - 1], old_v[j - 1]));
            }
        }
        assert forall|x: DeclV| #[trigger] elems(new_v).contains(x) == elems(old_v).insert(dv).contains(x) by {
            if new_v.contains(x) {
                let i = choose|i: int| 0 <= i < new_v.len() && new_v[i] == x;
                if i < k {
                    assert(old_v[i] == x);
                } else if i > k {
                    assert(old_v[i - 1] == x);
                }
            }
            if old_v.contains(x) {
                let i = choose|i: int| 0 <= i < old_v.len() && old_v[i] == x;
                if i < k {
                    assert(new_v[i] == x);
                } else {
                    assert(new_v[i + 1] == x);
                }
            }
            if x == dv {
                assert(new_v[k as int] == x);
            }
        }
        assert(elems(new_v) =~= elems(old_v).insert(dv));
    }
}

} // verus!
