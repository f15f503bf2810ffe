//! The orders in which paths and digests are compared.
//!
//! Paths are compared component by component: the first component in which
//! two paths differ decides, and the components are compared byte by byte.
//! This is the order in which a walk meets the files of a tree when it reads
//! every directory in the order of its names, and it keeps the files of a
//! directory together.
//!
//! A comparison never takes a path apart. It goes through the two paths byte
//! by byte and ranks the separator before every other byte, which comes to
//! the same.

use vstd::prelude::*;
use vstd::relations::total_ordering;

verus! {

/// The byte that separates the components of a relative path.
pub const SEPARATOR: u8 = 0x2f;

/// Lexicographic comparison of two sequences of ranks from position `from`
/// on: the first position at which the two differ decides, and a sequence
/// that ends first comes first.
pub open spec fn lex_le_from(a: Seq<int>, b: Seq<int>, from: int) -> bool
    decreases a.len() - from,
{
    if from >= a.len() {
        true
    } else if from >= b.len() {
        false
    } else if a[from] != b[from] {
        a[from] < b[from]
    } else {
        lex_le_from(a, b, from + 1)
    }
}

/// `a` comes no later than `b` in lexicographic order.
pub open spec fn lex_le(a: Seq<int>, b: Seq<int>) -> bool {
    lex_le_from(a, b, 0)
}

/// The rank of a byte. In a path the separator comes before every other
/// byte; elsewhere a byte ranks as its value.
pub open spec fn rank(byte: u8, in_path: bool) -> int {
    if !in_path {
        byte as int
    } else if byte == SEPARATOR {
        0
    } else {
        byte + 1
    }
}

/// The ranks of the bytes of a string.
pub open spec fn ranks(bytes: Seq<u8>, in_path: bool) -> Seq<int> {
    Seq::new(bytes.len(), |i: int| rank(bytes[i], in_path))
}

/// `a` comes no later than `b` in the order of plain byte strings.
pub open spec fn bytes_le(a: Seq<u8>, b: Seq<u8>) -> bool {
    lex_le(ranks(a, false), ranks(b, false))
}

/// The length of the first component of a path: the position of its first
/// separator, or the length of the path where it has none.
pub open spec fn first_len(path: Seq<u8>) -> int
    decreases path.len(),
{
    if path.len() == 0 || path[0] == SEPARATOR {
        0
    } else {
        1 + first_len(path.drop_first())
    }
}

/// The components of a path: the parts between its separators. A path
/// without a separator is one component.
pub open spec fn components(path: Seq<u8>) -> Seq<Seq<u8>>
    decreases path.len(),
{
    let n = first_len(path);
    if 0 <= n < path.len() {
        seq![path.take(n)] + components(path.skip(n + 1))
    } else {
        seq![path]
    }
}

/// Lexicographic comparison of two sequences of components: the first
/// component in which the two differ decides, and a sequence that ends first
/// comes first.
pub open spec fn components_le(a: Seq<Seq<u8>>, b: Seq<Seq<u8>>) -> bool
    decreases a.len(),
{
    if a.len() == 0 {
        true
    } else if b.len() == 0 {
        false
    } else if a[0] != b[0] {
        bytes_le(a[0], b[0])
    } else {
        components_le(a.drop_first(), b.drop_first())
    }
}

/// `a` comes no later than `b` in the order of paths.
pub open spec fn path_le(a: Seq<u8>, b: Seq<u8>) -> bool {
    components_le(components(a), components(b))
}

/// [`path_le`] as a relation.
pub open spec fn path_order() -> spec_fn(Seq<u8>, Seq<u8>) -> bool {
    |a: Seq<u8>, b: Seq<u8>| path_le(a, b)
}

/// [`bytes_le`] as a relation.
pub open spec fn byte_order() -> spec_fn(Seq<u8>, Seq<u8>) -> bool {
    |a: Seq<u8>, b: Seq<u8>| bytes_le(a, b)
}

/// How one string stands to another in an order.
#[derive(Clone, Copy, Debug, PartialEq, Eq, Structural)]
pub enum Precedence {
    Before,
    Same,
    After,
}

/// The precedence of `a` relative to `b` by ranks.
spec fn precedence(a: Seq<u8>, b: Seq<u8>, in_path: bool) -> Precedence {
    if a == b {
        Precedence::Same
    } else if lex_le(ranks(a, in_path), ranks(b, in_path)) {
        Precedence::Before
    } else {
        Precedence::After
    }
}

/// The precedence of the path `a` relative to the path `b`.
pub open spec fn path_precedence(a: Seq<u8>, b: Seq<u8>) -> Precedence {
    if a == b {
        Precedence::Same
    } else if path_le(a, b) {
        Precedence::Before
    } else {
        Precedence::After
    }
}

/// The precedence of the byte string `a` relative to the byte string `b`.
pub open spec fn bytes_precedence(a: Seq<u8>, b: Seq<u8>) -> Precedence {
    if a == b {
        Precedence::Same
    } else if bytes_le(a, b) {
        Precedence::Before
    } else {
        Precedence::After
    }
}

proof fn lemma_from_reflexive(a: Seq<int>, from: int)
    requires
        0 <= from,
    ensures
        lex_le_from(a, a, from),
    decreases a.len() - from,
{
    if from < a.len() {
        lemma_from_reflexive(a, from + 1);
    }
}

proof fn lemma_from_antisymmetric(a: Seq<int>, b: Seq<int>, from: int)
    requires
        0 <= from <= a.len(),
        from <= b.len(),
        lex_le_from(a, b, from),
        lex_le_from(b, a, from),
    ensures
        a.len() == b.len(),
        forall|j: int| from <= j < a.len() ==> a[j] == b[j],
    decreases a.len() - from,
{
    if from < a.len() {
        lemma_from_antisymmetric(a, b, from + 1);
    }
}

proof fn lemma_from_transitive(a: Seq<int>, b: Seq<int>, c: Seq<int>, from: int)
    requires
        0 <= from,
        lex_le_from(a, b, from),
        lex_le_from(b, c, from),
    ensures
        lex_le_from(a, c, from),
    decreases a.len() - from,
{
    if from < a.len() && a[from] == b[from] && b[from] == c[from] {
        lemma_from_transitive(a, b, c, from + 1);
    }
}

proof fn lemma_from_total(a: Seq<int>, b: Seq<int>, from: int)
    requires
        0 <= from,
    ensures
        lex_le_from(a, b, from) || lex_le_from(b, a, from),
    decreases a.len() - from,
{
    if from < a.len() && from < b.len() && a[from] == b[from] {
        lemma_from_total(a, b, from + 1);
    }
}

/// Strings with the same ranks are the same string.
proof fn lemma_ranks_injective(a: Seq<u8>, b: Seq<u8>, in_path: bool)
    requires
        ranks(a, in_path) == ranks(b, in_path),
    ensures
        a == b,
{
    assert(a.len() == ranks(a, in_path).len());
    assert forall|i: int| 0 <= i < a.len() implies a[i] == b[i] by {
        assert(ranks(a, in_path)[i] == rank(a[i], in_path));
    }
}

proof fn lemma_ranked_order_total(in_path: bool)
    ensures
        total_ordering(|a: Seq<u8>, b: Seq<u8>| lex_le(ranks(a, in_path), ranks(b, in_path))),
{
    let r = |a: Seq<u8>, b: Seq<u8>| lex_le(ranks(a, in_path), ranks(b, in_path));
    assert forall|x: Seq<u8>| #[trigger] r(x, x) by {
        lemma_from_reflexive(ranks(x, in_path), 0);
    }
    assert forall|x: Seq<u8>, y: Seq<u8>| #[trigger] r(x, y) && #[trigger] r(y, x) implies x
        == y by {
        lemma_from_antisymmetric(ranks(x, in_path), ranks(y, in_path), 0);
        assert(ranks(x, in_path) =~= ranks(y, in_path));
        lemma_ranks_injective(x, y, in_path);
    }
    assert forall|x: Seq<u8>, y: Seq<u8>, z: Seq<u8>| #[trigger] r(x, y) && #[trigger] r(y, z)
        implies r(x, z) by {
        lemma_from_transitive(ranks(x, in_path), ranks(y, in_path), ranks(z, in_path), 0);
    }
    assert forall|x: Seq<u8>, y: Seq<u8>| #[trigger] r(x, y) || #[trigger] r(y, x) by {
        lemma_from_total(ranks(x, in_path), ranks(y, in_path), 0);
    }
}

// Paths by component and paths by rank

proof fn lemma_first_len(path: Seq<u8>)
    ensures
        0 <= first_len(path) <= path.len(),
        forall|j: int| 0 <= j < first_len(path) ==> path[j] != SEPARATOR,
        first_len(path) < path.len() ==> path[first_len(path)] == SEPARATOR,
    decreases path.len(),
{
    if path.len() > 0 && path[0] != SEPARATOR {
        let rest = path.drop_first();
        lemma_first_len(rest);
        assert forall|j: int| 0 <= j < first_len(path) implies path[j] != SEPARATOR by {
            if j > 0 {
                assert(path[j] == rest[j - 1]);
            }
        }
    }
}

/// Two sequences that agree up to a position compare as they do from that
/// position on.
proof fn lemma_skip_common_prefix(a: Seq<int>, b: Seq<int>, from: int, to: int)
    requires
        0 <= from <= to,
        to <= a.len(),
        to <= b.len(),
        forall|j: int| from <= j < to ==> a[j] == b[j],
    ensures
        lex_le_from(a, b, from) == lex_le_from(a, b, to),
    decreases to - from,
{
    if from < to {
        lemma_skip_common_prefix(a, b, from + 1, to);
    }
}

/// Comparing from a position on is comparing what is left from there.
proof fn lemma_compare_rest(a: Seq<int>, b: Seq<int>, from: int, at: int)
    requires
        0 <= at <= from,
        at <= a.len(),
        at <= b.len(),
    ensures
        lex_le_from(a, b, from) == lex_le_from(a.skip(at), b.skip(at), from - at),
    decreases a.len() - from,
{
    if from < a.len() && from < b.len() && a[from] == b[from] {
        lemma_compare_rest(a, b, from + 1, at);
    }
}

/// Within the first components of two paths, the ranks of the paths decide
/// as the bytes of the components do.
proof fn lemma_first_components(a: Seq<u8>, b: Seq<u8>, i: int)
    requires
        0 <= i <= first_len(a),
        i <= first_len(b),
        forall|j: int| 0 <= j < i ==> a[j] == b[j],
    ensures
        a.take(first_len(a)) != b.take(first_len(b)) ==> lex_le_from(
            ranks(a, true),
            ranks(b, true),
            i,
        ) == lex_le_from(
            ranks(a.take(first_len(a)), false),
            ranks(b.take(first_len(b)), false),
            i,
        ),
        a.take(first_len(a)) == b.take(first_len(b)) ==> first_len(a) == first_len(b) && forall|
            j: int,
        | 0 <= j < first_len(a) ==> a[j] == b[j],
    decreases first_len(a) - i,
{
    lemma_first_len(a);
    lemma_first_len(b);
    let na = first_len(a);
    let nb = first_len(b);
    if i < na && i < nb {
        // Neither byte is a separator: where the two differ, their ranks
        // stand as their values do.
        if a[i] == b[i] {
            lemma_first_components(a, b, i + 1);
        }
    } else if i == na && i == nb {
        assert(a.take(na) =~= b.take(nb));
    }
    // Else one component has ended and the other has not. The path of the
    // first ends here or goes on with a separator, which ranks lowest.
}

/// The order of paths, by components, is the lexicographic order of their
/// ranks.
pub proof fn lemma_path_le_by_rank(a: Seq<u8>, b: Seq<u8>)
    ensures
        path_le(a, b) == lex_le(ranks(a, true), ranks(b, true)),
    decreases a.len(),
{
    lemma_first_len(a);
    lemma_first_len(b);
    lemma_first_components(a, b, 0);
    let na = first_len(a);
    let nb = first_len(b);
    let ra = ranks(a, true);
    let rb = ranks(b, true);
    let parts_a = components(a);
    let parts_b = components(b);
    assert(parts_a[0] == a.take(na) && parts_b[0] == b.take(nb));
    if a.take(na) == b.take(nb) {
        // The first components are the same: what follows them decides.
        lemma_skip_common_prefix(ra, rb, 0, na);
        assert(path_le(a, b) == components_le(parts_a.drop_first(), parts_b.drop_first()));
        if na < a.len() && nb < b.len() {
            let rest_a = a.skip(na + 1);
            let rest_b = b.skip(nb + 1);
            lemma_path_le_by_rank(rest_a, rest_b);
            assert(parts_a.drop_first() =~= components(rest_a));
            assert(parts_b.drop_first() =~= components(rest_b));
            lemma_skip_common_prefix(ra, rb, na, na + 1);
            lemma_compare_rest(ra, rb, na + 1, na + 1);
            assert(ra.skip(na + 1) =~= ranks(rest_a, true));
            assert(rb.skip(nb + 1) =~= ranks(rest_b, true));
        } else if na < a.len() {
            assert(parts_a.drop_first() =~= components(a.skip(na + 1)));
        }
    }
    // Else the first components differ and decide, as by
    // `lemma_first_components`.
}

/// The order of paths is a total order: every path comes no later than
/// itself, two paths that each come no later than the other are the same,
/// the order is transitive, and any two paths are comparable.
pub proof fn lemma_path_order_total()
    ensures
        total_ordering(path_order()),
{
    lemma_ranked_order_total(true);
    let by_rank = |a: Seq<u8>, b: Seq<u8>| lex_le(ranks(a, true), ranks(b, true));
    assert forall|a: Seq<u8>, b: Seq<u8>| #[trigger] path_order()(a, b) == by_rank(a, b) by {
        lemma_path_le_by_rank(a, b);
    }
}

/// The order of plain byte strings is a total order.
pub proof fn lemma_byte_order_total()
    ensures
        total_ordering(byte_order()),
{
    lemma_ranked_order_total(false);
    assert(byte_order() =~= (|a: Seq<u8>, b: Seq<u8>| lex_le(ranks(a, false), ranks(b, false))));
}

fn rank_of(byte: u8, in_path: bool) -> (r: u16)
    ensures
        r == rank(byte, in_path),
{
    if !in_path {
        byte as u16
    } else if byte == SEPARATOR {
        0
    } else {
        byte as u16 + 1
    }
}

fn compare_ranked(a: &[u8], b: &[u8], in_path: bool) -> (result: Precedence)
    ensures
        result == precedence(a@, b@, in_path),
{
    let ghost ra = ranks(a@, in_path);
    let ghost rb = ranks(b@, in_path);
    let mut i: usize = 0;
    while i < a.len() && i < b.len()
        invariant
            i <= a.len(),
            i <= b.len(),
            ra == ranks(a@, in_path),
            rb == ranks(b@, in_path),
            forall|j: int| 0 <= j < i ==> a@[j] == b@[j],
            lex_le(ra, rb) == lex_le_from(ra, rb, i as int),
        decreases a.len() - i,
    {
        let x = rank_of(a[i], in_path);
        let y = rank_of(b[i], in_path);
        if x != y {
            return if x < y {
                Precedence::Before
            } else {
                Precedence::After
            };
        }
        i += 1;
    }
    if i < b.len() {
        Precedence::Before
    } else if i < a.len() {
        Precedence::After
    } else {
        assert(a@ =~= b@);
        Precedence::Same
    }
}

/// Compares two relative paths, component by component.
pub fn compare_paths(a: &[u8], b: &[u8]) -> (result: Precedence)
    ensures
        result == path_precedence(a@, b@),
{
    proof {
        lemma_path_le_by_rank(a@, b@);
    }
    compare_ranked(a, b, true)
}

/// Compares two byte strings, byte by byte.
pub fn compare_bytes(a: &[u8], b: &[u8]) -> (result: Precedence)
    ensures
        result == bytes_precedence(a@, b@),
{
    compare_ranked(a, b, false)
}

} // verus!
