//! The order of texts and of paths.
use vstd::prelude::*;

verus! {

/// The strict dictionary order of sequences: at the first difference the
/// smaller item decides, and a proper prefix comes first.
pub open spec fn before(a: Seq<u32>, b: Seq<u32>) -> bool
    decreases a.len(),
{
    if b.len() == 0 {
        false
    } else if a.len() == 0 {
        true
    } else if a[0] == b[0] {
        before(a.drop_first(), b.drop_first())
    } else {
        a[0] < b[0]
    }
}

/// A text as its code points.
pub open spec fn code_points(text: Seq<char>) -> Seq<u32> {
    text.map_values(|c: char| c as u32)
}

/// The rank of a byte in a path: the separator `/` comes before all others.
pub open spec fn path_rank(byte: u8) -> u32 {
    if byte == 0x2f {
        0u32
    } else {
        (byte as u32 + 1) as u32
    }
}

/// A path as the ranks of its bytes. Ordered by these, paths compare component
/// by component.
pub open spec fn path_ranks(path: Seq<u8>) -> Seq<u32> {
    path.map_values(|byte: u8| path_rank(byte))
}

/// Whether the text `a` is ordered before the text `b`.
pub open spec fn text_before(a: Seq<char>, b: Seq<char>) -> bool {
    before(code_points(a), code_points(b))
}

/// Nothing comes before itself.
pub proof fn lemma_before_irreflexive(a: Seq<u32>)
    ensures
        !before(a, a),
    decreases a.len(),
{
    if a.len() > 0 {
        lemma_before_irreflexive(a.drop_first());
    }
}

/// The order is transitive.
pub proof fn lemma_before_transitive(a: Seq<u32>, b: Seq<u32>, c: Seq<u32>)
    requires
        before(a, b),
        before(b, c),
    ensures
        before(a, c),
    decreases a.len(),
{
    if a.len() > 0 && b.len() > 0 && c.len() > 0 && a[0] == b[0] && b[0] == c[0] {
        lemma_before_transitive(a.drop_first(), b.drop_first(), c.drop_first());
    }
}

/// Two different sequences are ordered one way or the other.
pub proof fn lemma_before_total(a: Seq<u32>, b: Seq<u32>)
    ensures
        a == b || before(a, b) || before(b, a),
    decreases a.len(),
{
    if a.len() == 0 && b.len() == 0 {
        assert(a =~= b);
    } else if a.len() > 0 && b.len() > 0 && a[0] == b[0] {
        lemma_before_total(a.drop_first(), b.drop_first());
        if a.drop_first() == b.drop_first() {
            assert(a =~= seq![a[0]] + a.drop_first());
            assert(b =~= seq![b[0]] + b.drop_first());
        }
    }
}

/// Every character is a code point.
pub proof fn lemma_code_point(c: char)
    ensures
        (c as u32) as int == c as int,
        c as int <= 0x10ffff,
{
}

/// Texts with the same code points are equal.
pub proof fn lemma_code_points_injective(a: Seq<char>, b: Seq<char>)
    requires
        code_points(a) == code_points(b),
    ensures
        a == b,
{
    assert(a.len() == code_points(a).len());
    assert(b.len() == code_points(b).len());
    assert forall|i: int| 0 <= i < a.len() implies a[i] == b[i] by {
        assert(code_points(a)[i] == a[i] as u32);
        lemma_code_point(a[i]);
        lemma_code_point(b[i]);
        assert(code_points(b)[i] == b[i] as u32);
    }
    assert(a =~= b);
}

/// Paths with the same ranks are equal.
pub proof fn lemma_path_ranks_injective(a: Seq<u8>, b: Seq<u8>)
    requires
        path_ranks(a) == path_ranks(b),
    ensures
        a == b,
{
    assert(a.len() == path_ranks(a).len());
    assert(b.len() == path_ranks(b).len());
    assert forall|i: int| 0 <= i < a.len() implies a[i] == b[i] by {
        assert(path_ranks(a)[i] == path_rank(a[i]));
        assert(path_ranks(b)[i] == path_rank(b[i]));
    }
    assert(a =~= b);
}

/// Whether `a` comes before `b`.
pub fn is_before(a: &Vec<u32>, b: &Vec<u32>) -> (r: bool)
    ensures
        r == before(a@, b@),
{
    let mut i: usize = 0;
    proof {
        assert(a@.skip(0) =~= a@);
        assert(b@.skip(0) =~= b@);
    }
    while i < a.len() && i < b.len() && a[i] == b[i]
        invariant
            i <= a@.len(),
            i <= b@.len(),
            before(a@.skip(i as int), b@.skip(i as int)) == before(a@, b@),
        decreases a@.len() - i,
    {
        proof {
            assert(a@.skip(i as int).drop_first() =~= a@.skip(i + 1));
            assert(b@.skip(i as int).drop_first() =~= b@.skip(i + 1));
        }
        i += 1;
    }
    if i == b.len() {
        false
    } else if i == a.len() {
        true
    } else {
        a[i] < b[i]
    }
}

/// The code points of a text.
pub fn to_code_points(text: &Vec<char>) -> (r: Vec<u32>)
    ensures
        r@ == code_points(text@),
{
    let mut r: Vec<u32> = Vec::new();
    for i in 0..text.len()
        invariant
            r@ == code_points(text@).take(i as int),
    {
        r.push(text[i] as u32);
        proof {
            assert(code_points(text@).take(i + 1) =~= code_points(text@).take(i as int).push(
                code_points(text@)[i as int],
            ));
        }
    }
    proof {
        assert(code_points(text@).take(text@.len() as int) =~= code_points(text@));
    }
    r
}

/// The ranks of a path's bytes.
pub fn to_path_ranks(path: &Vec<u8>) -> (r: Vec<u32>)
    ensures
        r@ == path_ranks(path@),
{
    let mut r: Vec<u32> = Vec::new();
    for i in 0..path.len()
        invariant
            r@ == path_ranks(path@).take(i as int),
    {
        let byte: u8 = path[i];
        r.push(
            if byte == 0x2f {
                0u32
            } else {
                byte as u32 + 1
            },
        );
        proof {
            assert(path_ranks(path@).take(i + 1) =~= path_ranks(path@).take(i as int).push(
                path_ranks(path@)[i as int],
            ));
        }
    }
    proof {
        assert(path_ranks(path@).take(path@.len() as int) =~= path_ranks(path@));
    }
    r
}

// ---------------------------------------------------------------------------
// Laws
// ---------------------------------------------------------------------------

/// Whether two sequences agree up to a position where the first has ended and the
/// second has not, or where the first has the smaller item.
pub open spec fn decided_at(a: Seq<u32>, b: Seq<u32>, k: int) -> bool {
    &&& 0 <= k <= a.len()
    &&& k < b.len()
    &&& forall|i: int| 0 <= i < k ==> a[i] == b[i]
    &&& k < a.len() ==> a[k] < b[k]
}

/// One sequence comes before another exactly where they agree up to some position,
/// and there the first has ended or has the smaller item.
pub proof fn law_before_is_dictionary_order(a: Seq<u32>, b: Seq<u32>)
    ensures
        before(a, b) <==> exists|k: int| decided_at(a, b, k),
    decreases a.len(),
{
    if b.len() > 0 && a.len() > 0 && a[0] == b[0] {
        let (x, y) = (a.drop_first(), b.drop_first());
        law_before_is_dictionary_order(x, y);
        if before(a, b) {
            let k = choose|k: int| decided_at(x, y, k);
            assert forall|i: int| 0 <= i < k + 1 implies a[i] == b[i] by {
                if i > 0 {
                    assert(x[i - 1] == y[i - 1]);
                }
            }
            assert(decided_at(a, b, k + 1));
        }
        if exists|k: int| decided_at(a, b, k) {
            let k = choose|k: int| decided_at(a, b, k);
            assert forall|i: int| 0 <= i < k - 1 implies x[i] == y[i] by {
                assert(a[i + 1] == b[i + 1]);
            }
            assert(decided_at(x, y, k - 1));
        }
    } else if b.len() > 0 && before(a, b) {
        assert(decided_at(a, b, 0));
    }
}

/// Whether two texts agree up to a position where the first has ended and the second
/// has not, or where the first has the smaller code point.
pub open spec fn texts_decided_at(a: Seq<char>, b: Seq<char>, k: int) -> bool {
    &&& 0 <= k <= a.len()
    &&& k < b.len()
    &&& forall|i: int| 0 <= i < k ==> a[i] == b[i]
    &&& k < a.len() ==> (a[k] as int) < (b[k] as int)
}

/// One text comes before another exactly where they agree up to some position, and
/// there the first has ended or has the smaller code point.
pub proof fn law_texts_are_in_dictionary_order(a: Seq<char>, b: Seq<char>)
    ensures
        text_before(a, b) <==> exists|k: int| texts_decided_at(a, b, k),
{
    let (x, y) = (code_points(a), code_points(b));
    law_before_is_dictionary_order(x, y);
    assert forall|k: int| decided_at(x, y, k) == texts_decided_at(a, b, k) by {
        lemma_points(a);
        lemma_points(b);
        if decided_at(x, y, k) {
            assert forall|i: int| 0 <= i < k implies a[i] == b[i] by {
                assert(x[i] == y[i]);
            }
        }
        if texts_decided_at(a, b, k) {
            assert forall|i: int| 0 <= i < k implies x[i] == y[i] by {
                assert(a[i] == b[i]);
            }
        }
    }
    if text_before(a, b) {
        let k = choose|k: int| decided_at(x, y, k);
        assert(texts_decided_at(a, b, k));
    }
    if exists|k: int| texts_decided_at(a, b, k) {
        let k = choose|k: int| texts_decided_at(a, b, k);
        assert(decided_at(x, y, k));
    }
}

/// The code points of a text, one by one.
proof fn lemma_points(a: Seq<char>)
    ensures
        code_points(a).len() == a.len(),
        forall|i: int| 0 <= i < a.len() ==> (#[trigger] code_points(a)[i]) as int == a[i] as int,
{
    assert forall|i: int| 0 <= i < a.len() implies (#[trigger] code_points(a)[i]) as int
        == a[i] as int by {
        lemma_code_point(a[i]);
    }
}

/// Whether two paths agree up to a position where the first has ended and the second
/// has not, or where the first has a separator and the second none, or where both have
/// none and the first has the smaller byte.
pub open spec fn paths_decided_at(a: Seq<u8>, b: Seq<u8>, k: int) -> bool {
    &&& 0 <= k <= a.len()
    &&& k < b.len()
    &&& forall|i: int| 0 <= i < k ==> a[i] == b[i]
    &&& k < a.len() ==> b[k] != '/' as u8 && (a[k] == '/' as u8 || a[k] < b[k])
}

/// Ordered by their ranks, paths compare component by component: at the first
/// difference a component that ends comes first, and otherwise the smaller byte.
pub proof fn law_paths_compare_by_components(a: Seq<u8>, b: Seq<u8>)
    ensures
        before(path_ranks(a), path_ranks(b)) <==> exists|k: int| paths_decided_at(a, b, k),
{
    let (x, y) = (path_ranks(a), path_ranks(b));
    law_before_is_dictionary_order(x, y);
    assert('/' as u8 == 0x2f);
    assert forall|k: int| decided_at(x, y, k) == paths_decided_at(a, b, k) by {
        assert forall|i: int| 0 <= i < a.len() implies #[trigger] x[i] == path_rank(a[i]) by {}
        assert forall|i: int| 0 <= i < b.len() implies #[trigger] y[i] == path_rank(b[i]) by {}
        if decided_at(x, y, k) {
            assert forall|i: int| 0 <= i < k implies a[i] == b[i] by {
                assert(x[i] == y[i]);
            }
        }
        if paths_decided_at(a, b, k) {
            assert forall|i: int| 0 <= i < k implies x[i] == y[i] by {
                assert(a[i] == b[i]);
            }
        }
    }
    if before(x, y) {
        let k = choose|k: int| decided_at(x, y, k);
        assert(paths_decided_at(a, b, k));
    }
    if exists|k: int| paths_decided_at(a, b, k) {
        let k = choose|k: int| paths_decided_at(a, b, k);
        assert(decided_at(x, y, k));
    }
}

/// What is found to come before something else does so in dictionary order.
pub proof fn law_first_difference_decides(a: &Vec<u32>, b: &Vec<u32>, r: bool)
    requires
        call_ensures(is_before, (a, b), r),
    ensures
        r <==> exists|k: int| decided_at(a@, b@, k),
{
    law_before_is_dictionary_order(a@, b@);
}

/// Code points are the numbers of the characters, one by one.
pub proof fn law_code_points_are_numbers(text: &Vec<char>, r: Vec<u32>)
    requires
        call_ensures(to_code_points, (text,), r),
    ensures
        r@.len() == text@.len(),
        forall|i: int| 0 <= i < text@.len() ==> (#[trigger] r@[i]) as int == text@[i] as int,
{
    lemma_points(text@);
}

/// Paths whose ranks are in order compare component by component.
pub proof fn law_ranks_order_paths(
    a: &Vec<u8>,
    b: &Vec<u8>,
    ra: Vec<u32>,
    rb: Vec<u32>,
    r: bool,
)
    requires
        call_ensures(to_path_ranks, (a,), ra),
        call_ensures(to_path_ranks, (b,), rb),
        call_ensures(is_before, (&ra, &rb), r),
    ensures
        r <==> exists|k: int| paths_decided_at(a@, b@, k),
{
    law_paths_compare_by_components(a@, b@);
}

} // verus!
