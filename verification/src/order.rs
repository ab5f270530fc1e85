//! The order in which device identifiers are listed.
//!
//! Identifiers are compared as Rust compares strings: lexicographically by
//! the bytes of their UTF-8 encoding.

use vstd::prelude::*;
use vstd::string::*;
use vstd::utf8::*;

verus! {

/// `a` and `b` hold the same bytes at every position before `k`.
pub open spec fn agree_before(a: Seq<u8>, b: Seq<u8>, k: int) -> bool {
    &&& 0 <= k <= a.len()
    &&& k <= b.len()
    &&& forall|j: int| 0 <= j < k ==> a[j] == b[j]
}

/// Strict lexicographic order on byte sequences: at the first position where
/// the two differ, `a` has ended or holds the smaller byte.
pub open spec fn bytes_before(a: Seq<u8>, b: Seq<u8>) -> bool {
    exists|k: int|
        #[trigger] agree_before(a, b, k) && k < b.len() && (k == a.len() || a[k] < b[k])
}

/// Strict order on identifiers.
pub open spec fn precedes(a: Seq<char>, b: Seq<char>) -> bool {
    bytes_before(encode_utf8(a), encode_utf8(b))
}

/// Decides the lexicographic order of two byte strings.
pub fn bytes_precede(x: &[u8], y: &[u8]) -> (r: bool)
    ensures
        r == bytes_before(x@, y@),
{
    let mut i: usize = 0;
    while i < x.len() && i < y.len()
        invariant
            agree_before(x@, y@, i as int),
        decreases x.len() - i,
    {
        if x[i] != y[i] {
            proof {
                lemma_first_difference(x@, y@, i as int);
            }
            return x[i] < y[i];
        }
        i += 1;
    }
    proof {
        lemma_one_ended(x@, y@, i as int);
    }
    i < y.len()
}

/// Decides whether identifier `a` comes strictly before identifier `b`.
pub fn id_precedes(a: &str, b: &str) -> (r: bool)
    ensures
        r == precedes(a@, b@),
{
    bytes_precede(a.as_bytes(), b.as_bytes())
}

/// Where two byte strings first differ at `k`, the bytes at `k` decide.
pub proof fn lemma_first_difference(a: Seq<u8>, b: Seq<u8>, k: int)
    requires
        agree_before(a, b, k),
        k < a.len(),
        k < b.len(),
        a[k] != b[k],
    ensures
        bytes_before(a, b) == (a[k] < b[k]),
        bytes_before(b, a) == (b[k] < a[k]),
{
    lemma_agree_symmetric(a, b, k);
    if a[k] < b[k] {
        assert(agree_before(a, b, k) && k < b.len() && (k == a.len() || a[k] < b[k]));
    } else {
        assert(agree_before(b, a, k) && k < a.len() && (k == b.len() || b[k] < a[k]));
    }
    assert forall|j: int| #[trigger]
        agree_before(a, b, j) && j < b.len() && (j == a.len() || a[j] < b[j]) implies j == k by {
        if j > k {
            assert(a[k] == b[k]);
        } else if j < k {
            assert(a[j] == b[j]);
        }
    }
    assert forall|j: int| #[trigger]
        agree_before(b, a, j) && j < a.len() && (j == b.len() || b[j] < a[j]) implies j == k by {
        if j > k {
            assert(b[k] == a[k]);
        } else if j < k {
            assert(a[j] == b[j]);
        }
    }
}

/// Where one of two byte strings ends at `k` and they agree before it, the
/// shorter one comes first, and equal ones are not ordered.
pub proof fn lemma_one_ended(a: Seq<u8>, b: Seq<u8>, k: int)
    requires
        agree_before(a, b, k),
        k == a.len() || k == b.len(),
    ensures
        bytes_before(a, b) == (k < b.len()),
        bytes_before(b, a) == (k < a.len()),
        (k == a.len() && k == b.len()) ==> a == b,
{
    lemma_agree_symmetric(a, b, k);
    if k < b.len() {
        assert(agree_before(a, b, k) && k < b.len() && (k == a.len() || a[k] < b[k]));
    }
    if k < a.len() {
        assert(agree_before(b, a, k) && k < a.len() && (k == b.len() || b[k] < a[k]));
    }
    assert forall|j: int| #[trigger]
        agree_before(a, b, j) && j < b.len() && (j == a.len() || a[j] < b[j]) implies j == k && k
        < b.len() by {
        if j < k {
            assert(a[j] == b[j]);
        }
    }
    assert forall|j: int| #[trigger]
        agree_before(b, a, j) && j < a.len() && (j == b.len() || b[j] < a[j]) implies j == k && k
        < a.len() by {
        if j < k {
            assert(a[j] == b[j]);
        }
    }
    if k == a.len() && k == b.len() {
        assert(a =~= b);
    }
}

proof fn lemma_agree_symmetric(a: Seq<u8>, b: Seq<u8>, k: int)
    requires
        agree_before(a, b, k),
    ensures
        agree_before(b, a, k),
{
}

/// Two byte strings that agree before `k` are equal or ordered one way.
proof fn lemma_bytes_connected_from(a: Seq<u8>, b: Seq<u8>, k: int)
    requires
        agree_before(a, b, k),
    ensures
        a == b || bytes_before(a, b) || bytes_before(b, a),
    decreases a.len() - k,
{
    if k == a.len() || k == b.len() {
        lemma_one_ended(a, b, k);
    } else if a[k] != b[k] {
        lemma_first_difference(a, b, k);
    } else {
        lemma_bytes_connected_from(a, b, k + 1);
    }
}

/// The order on byte strings is a strict total order.
pub proof fn lemma_bytes_total_order(a: Seq<u8>, b: Seq<u8>, c: Seq<u8>)
    ensures
        !bytes_before(a, a),
        bytes_before(a, b) && bytes_before(b, c) ==> bytes_before(a, c),
        a == b || bytes_before(a, b) || bytes_before(b, a),
{
    assert(agree_before(a, b, 0));
    lemma_bytes_connected_from(a, b, 0);
    if bytes_before(a, b) && bytes_before(b, c) {
        let k1 = choose|k: int| #[trigger]
            agree_before(a, b, k) && k < b.len() && (k == a.len() || a[k] < b[k]);
        let k2 = choose|k: int| #[trigger]
            agree_before(b, c, k) && k < c.len() && (k == b.len() || b[k] < c[k]);
        let k = if k1 <= k2 {
            k1
        } else {
            k2
        };
        assert(agree_before(a, c, k)) by {
            assert forall|j: int| 0 <= j < k implies a[j] == c[j] by {
                assert(a[j] == b[j]);
                assert(b[j] == c[j]);
            }
        }
        if k1 < k2 {
            assert(b[k1] == c[k1]);
        } else if k2 < k1 {
            assert(a[k2] == b[k2]);
        }
        assert(agree_before(a, c, k) && k < c.len() && (k == a.len() || a[k] < c[k]));
    }
}

/// The order on identifiers is a strict total order: no identifier precedes
/// itself, the order is transitive, and of two different identifiers one
/// precedes the other.
pub proof fn lemma_precedes_total_order(a: Seq<char>, b: Seq<char>, c: Seq<char>)
    ensures
        !precedes(a, a),
        precedes(a, b) && precedes(b, c) ==> precedes(a, c),
        a == b || precedes(a, b) || precedes(b, a),
        !(precedes(a, b) && precedes(b, a)),
{
    lemma_bytes_total_order(encode_utf8(a), encode_utf8(b), encode_utf8(c));
    lemma_bytes_total_order(encode_utf8(a), encode_utf8(b), encode_utf8(a));
    if encode_utf8(a) == encode_utf8(b) {
        encode_utf8_decode_utf8(a);
        encode_utf8_decode_utf8(b);
    }
}

/// Every entry of `s` precedes every later entry.
pub open spec fn ascending(s: Seq<Seq<char>>) -> bool {
    forall|i: int, j: int| 0 <= i < j < s.len() ==> precedes(#[trigger] s[i], #[trigger] s[j])
}

/// `s` lists the identifiers of `set`: each of them once, in ascending order.
pub open spec fn lists(s: Seq<Seq<char>>, set: Set<Seq<char>>) -> bool {
    &&& ascending(s)
    &&& forall|id: Seq<char>| set.contains(id) <==> s.contains(id)
}

/// The identifiers of a finite set in ascending order.
pub open spec fn listing(set: Set<Seq<char>>) -> Seq<Seq<char>> {
    choose|s: Seq<Seq<char>>| lists(s, set)
}

/// An ascending sequence holds nothing twice.
pub proof fn lemma_ascending_no_duplicates(s: Seq<Seq<char>>)
    requires
        ascending(s),
    ensures
        s.no_duplicates(),
{
    assert forall|i: int, j: int| 0 <= i < s.len() && 0 <= j < s.len() && i != j implies s[i]
        != s[j] by {
        lemma_precedes_total_order(s[i], s[j], s[i]);
        if i < j {
            assert(precedes(s[i], s[j]));
        } else {
            assert(precedes(s[j], s[i]));
        }
    }
}

/// A set that is listed is finite and has as many members as the list has
/// entries.
pub proof fn lemma_lists_len(s: Seq<Seq<char>>, set: Set<Seq<char>>)
    requires
        lists(s, set),
    ensures
        set.finite(),
        set.len() == s.len(),
        set == s.to_set(),
{
    lemma_ascending_no_duplicates(s);
    s.unique_seq_to_set();
    assert(set =~= s.to_set());
}

/// Two ascending lists of one set agree up to every position.
proof fn lemma_lists_agree(s1: Seq<Seq<char>>, s2: Seq<Seq<char>>, set: Set<Seq<char>>, n: int)
    requires
        lists(s1, set),
        lists(s2, set),
        s1.len() == s2.len(),
        0 <= n <= s1.len(),
    ensures
        forall|i: int| 0 <= i < n ==> s1[i] == s2[i],
    decreases n,
{
    if n > 0 {
        lemma_lists_agree(s1, s2, set, n - 1);
        let i = n - 1;
        if s1[i] != s2[i] {
            lemma_precedes_total_order(s1[i], s2[i], s1[i]);
            lemma_later_entry_elsewhere(s1, s2, set, i);
            lemma_later_entry_elsewhere(s2, s1, set, i);
        }
    }
}

/// If two ascending lists of one set agree before `i`, the entry of the
/// first at `i` does not precede the entry of the second at `i`.
proof fn lemma_later_entry_elsewhere(
    s1: Seq<Seq<char>>,
    s2: Seq<Seq<char>>,
    set: Set<Seq<char>>,
    i: int,
)
    requires
        lists(s1, set),
        lists(s2, set),
        0 <= i < s1.len(),
        i < s2.len(),
        forall|j: int| 0 <= j < i ==> s1[j] == s2[j],
    ensures
        !precedes(s1[i], s2[i]),
{
    assert(s1.contains(s1[i]));
    assert(set.contains(s1[i]));
    assert(s2.contains(s1[i]));
    let m = choose|m: int| 0 <= m < s2.len() && s2[m] == s1[i];
    lemma_precedes_total_order(s1[i], s2[i], s1[i]);
    if m < i {
        assert(s1[m] == s2[m]);
        assert(precedes(s1[m], s1[i]));
    } else if m > i {
        assert(precedes(s2[i], s2[m]));
    }
}

/// A set has at most one ascending list.
pub proof fn lemma_lists_unique(s1: Seq<Seq<char>>, s2: Seq<Seq<char>>, set: Set<Seq<char>>)
    requires
        lists(s1, set),
        lists(s2, set),
    ensures
        s1 == s2,
{
    lemma_lists_len(s1, set);
    lemma_lists_len(s2, set);
    lemma_lists_agree(s1, s2, set, s1.len() as int);
    assert(s1 =~= s2);
}

/// Whatever lists a set in ascending order is its listing.
pub proof fn lemma_listing_is(s: Seq<Seq<char>>, set: Set<Seq<char>>)
    requires
        lists(s, set),
    ensures
        listing(set) == s,
{
    lemma_lists_unique(listing(set), s, set);
}

/// Putting a new identifier behind the entries that precede it and before
/// the others keeps a list ascending, and adds the identifier to what it
/// lists.
pub proof fn lemma_insert_keeps_ascending(s: Seq<Seq<char>>, j: int, id: Seq<char>)
    requires
        ascending(s),
        0 <= j <= s.len(),
        forall|k: int| 0 <= k < j ==> precedes(#[trigger] s[k], id),
        j < s.len() ==> !precedes(s[j], id),
        !s.contains(id),
    ensures
        lists(s.insert(j, id), s.to_set().insert(id)),
{
    let t = s.insert(j, id);
    assert forall|a: int, b: int| 0 <= a < b < t.len() implies precedes(
        #[trigger] t[a],
        #[trigger] t[b],
    ) by {
        if b == j {
            assert(t[a] == s[a]);
        } else if a == j {
            assert(t[b] == s[b - 1]);
            assert(s.contains(s[j]));
            lemma_precedes_total_order(id, s[j], s[b - 1]);
            if b - 1 > j {
                assert(precedes(s[j], s[b - 1]));
            }
        } else {
            let a0 = if a < j { a } else { a - 1 };
            let b0 = if b < j { b } else { b - 1 };
            assert(t[a] == s[a0]);
            assert(t[b] == s[b0]);
        }
    }
    assert forall|x: Seq<char>| s.to_set().insert(id).contains(x) <==> t.contains(x) by {
        if t.contains(x) {
            let k = choose|k: int| 0 <= k < t.len() && t[k] == x;
            if k < j {
                assert(s[k] == x);
            } else if k > j {
                assert(s[k - 1] == x);
            }
        }
        if s.contains(x) {
            let k = choose|k: int| 0 <= k < s.len() && s[k] == x;
            if k < j {
                assert(t[k] == x);
            } else {
                assert(t[k + 1] == x);
            }
        }
        if x == id {
            assert(t[j] == x);
        }
    }
}

/// A position in an ascending list at which `id` can be put: every entry
/// before it precedes `id`, and the entry at it, if there is one, does not.
proof fn lemma_position(s: Seq<Seq<char>>, id: Seq<char>, from: int) -> (j: int)
    requires
        0 <= from <= s.len(),
        forall|k: int| 0 <= k < from ==> precedes(#[trigger] s[k], id),
    ensures
        from <= j <= s.len(),
        forall|k: int| 0 <= k < j ==> precedes(#[trigger] s[k], id),
        j < s.len() ==> !precedes(s[j], id),
    decreases s.len() - from,
{
    if from < s.len() && precedes(s[from], id) {
        lemma_position(s, id, from + 1)
    } else {
        from
    }
}

/// Every finite set of identifiers has an ascending list, which is its
/// listing.
pub proof fn lemma_listing_exists(set: Set<Seq<char>>)
    requires
        set.finite(),
    ensures
        lists(listing(set), set),
        listing(set).len() == set.len(),
    decreases set.len(),
{
    if set.len() == 0 {
        let s = Seq::<Seq<char>>::empty();
        assert(set =~= Set::<Seq<char>>::empty());
        assert(lists(s, set));
    } else {
        let id = set.choose();
        let rest = set.remove(id);
        lemma_listing_exists(rest);
        let s = listing(rest);
        let j = lemma_position(s, id, 0);
        lemma_lists_len(s, rest);
        lemma_insert_keeps_ascending(s, j, id);
        assert(rest.insert(id) =~= set);
        assert(lists(s.insert(j, id), set));
    }
    lemma_lists_len(listing(set), set);
}

} // verus!
