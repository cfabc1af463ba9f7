//! Paths as text, and the order in which groups list them.
//!
//! A path is the text that names a file, and two texts are two paths. Paths
//! are ordered component by component: the paths are gone through from the
//! root, and at the first component in which they differ the one with the
//! smaller component comes first, components being compared byte by byte
//! over their UTF-8 encoding, a proper prefix before what it is a prefix
//! of. So `pics/a.png` comes before `pics-old/a.png`, as `pics` comes
//! before `pics-old`. Over the whole text this is the lexicographic order
//! in which the slash ranks below every other byte.

use vstd::prelude::*;
use vstd::string::{StrSliceExecFns, StringExecFns};
use vstd::utf8::{encode_utf8, encode_utf8_decode_utf8};

verus! {

/// The first `k` bytes of `a` and of `b` are the same.
pub open spec fn agree_upto(a: Seq<u8>, b: Seq<u8>, k: int) -> bool {
    0 <= k <= a.len() && k <= b.len() && forall|i: int| 0 <= i < k ==> a[i] == b[i]
}

/// The rank of a byte in the order of paths: the slash, which ends a
/// component, ranks below all others, which keep their order.
pub open spec fn rank(byte: u8) -> int {
    if byte == 0x2f {
        0
    } else {
        byte as int + 1
    }
}

/// The rank of a byte in the order of paths.
fn rank_of(byte: u8) -> (r: u16)
    ensures
        r == rank(byte),
{
    if byte == 0x2f {
        0
    } else {
        byte as u16 + 1
    }
}

/// `a` comes before `b`: at the first position where they part, `a` has
/// ended or has the byte of lower rank. This is the order by components
/// (`order_is_by_components`).
pub open spec fn bytes_before(a: Seq<u8>, b: Seq<u8>) -> bool {
    exists|k: int| #[trigger]
        agree_upto(a, b, k) && k < b.len() && (k == a.len() || rank(a[k]) < rank(b[k]))
}

/// The path `a` comes before the path `b`.
pub open spec fn path_before(a: Seq<char>, b: Seq<char>) -> bool {
    bytes_before(encode_utf8(a), encode_utf8(b))
}

/// Each path of `s` comes before the next one: `s` is in ascending order
/// and holds no path twice.
pub open spec fn ascending(s: Seq<Seq<char>>) -> bool {
    forall|i: int, j: int| 0 <= i < j < s.len() ==> path_before(#[trigger] s[i], #[trigger] s[j])
}

/// Nothing comes before itself, and of two byte strings at most one comes
/// before the other.
pub proof fn bytes_before_is_asymmetric(a: Seq<u8>, b: Seq<u8>)
    ensures
        !(bytes_before(a, b) && bytes_before(b, a)),
        !bytes_before(a, a),
{
    if bytes_before(a, b) && bytes_before(b, a) {
        let k = choose|k: int| #[trigger]
            agree_upto(a, b, k) && k < b.len() && (k == a.len() || rank(a[k]) < rank(b[k]));
        let m = choose|m: int| #[trigger]
            agree_upto(b, a, m) && m < a.len() && (m == b.len() || rank(b[m]) < rank(a[m]));
        if k < m {
            assert(b[k] == a[k]);
        } else if m < k {
            assert(a[m] == b[m]);
        }
    }
    if bytes_before(a, a) {
        let k = choose|k: int| #[trigger]
            agree_upto(a, a, k) && k < a.len() && (k == a.len() || rank(a[k]) < rank(a[k]));
    }
}

/// What comes before something that comes before a third comes before the
/// third.
pub proof fn bytes_before_is_transitive(a: Seq<u8>, b: Seq<u8>, c: Seq<u8>)
    requires
        bytes_before(a, b),
        bytes_before(b, c),
    ensures
        bytes_before(a, c),
{
    let k = choose|k: int| #[trigger]
        agree_upto(a, b, k) && k < b.len() && (k == a.len() || rank(a[k]) < rank(b[k]));
    let m = choose|m: int| #[trigger]
        agree_upto(b, c, m) && m < c.len() && (m == b.len() || rank(b[m]) < rank(c[m]));
    let w = if k <= m {
        k
    } else {
        m
    };
    assert(agree_upto(a, c, w)) by {
        assert forall|i: int| 0 <= i < w implies a[i] == c[i] by {
            assert(a[i] == b[i]);
            assert(b[i] == c[i]);
        }
    }
    if k < m {
        assert(b[k] == c[k]);
    } else if m < k {
        assert(a[m] == b[m]);
    }
}

/// Of two different byte strings that agree in their first `k` bytes, one
/// comes before the other.
pub proof fn bytes_part_somewhere(a: Seq<u8>, b: Seq<u8>, k: int)
    requires
        agree_upto(a, b, k),
        a != b,
    ensures
        bytes_before(a, b) || bytes_before(b, a),
    decreases a.len() - k,
{
    if k == a.len() {
        if k == b.len() {
            assert(a =~= b);
        } else {
            assert(agree_upto(a, b, k));
        }
    } else if k == b.len() {
        assert(agree_upto(b, a, k));
    } else if a[k] != b[k] {
        assert(agree_upto(b, a, k));
    } else {
        assert(agree_upto(a, b, k + 1));
        bytes_part_somewhere(a, b, k + 1);
    }
}

/// The order of paths is a strict total order: of two paths exactly one
/// comes before the other unless they are the same, and the order is
/// transitive.
pub proof fn path_order_is_total(a: Seq<char>, b: Seq<char>, c: Seq<char>)
    ensures
        !path_before(a, a),
        !(path_before(a, b) && path_before(b, a)),
        a != b ==> path_before(a, b) || path_before(b, a),
        path_before(a, b) && path_before(b, c) ==> path_before(a, c),
{
    bytes_before_is_asymmetric(encode_utf8(a), encode_utf8(b));
    bytes_before_is_asymmetric(encode_utf8(a), encode_utf8(a));
    if a != b {
        encode_utf8_decode_utf8(a);
        encode_utf8_decode_utf8(b);
        assert(agree_upto(encode_utf8(a), encode_utf8(b), 0));
        bytes_part_somewhere(encode_utf8(a), encode_utf8(b), 0);
    }
    if path_before(a, b) && path_before(b, c) {
        bytes_before_is_transitive(encode_utf8(a), encode_utf8(b), encode_utf8(c));
    }
}

/// Where the component ends that position `at` of `a` lies in: at the next
/// slash, or at the end of `a`.
pub open spec fn component_end(a: Seq<u8>, at: int) -> int
    decreases a.len() - at,
{
    if at >= a.len() {
        a.len() as int
    } else if a[at] == 0x2f {
        at
    } else {
        component_end(a, at + 1)
    }
}

/// The components of `a` from the one on that begins at `start`, the bytes
/// up to `at` being gone through: the pieces between the slashes.
pub open spec fn components_from(a: Seq<u8>, start: int, at: int) -> Seq<Seq<u8>>
    decreases a.len() - at,
{
    if at >= a.len() {
        seq![a.subrange(start, a.len() as int)]
    } else if a[at] == 0x2f {
        seq![a.subrange(start, at)] + components_from(a, at + 1, at + 1)
    } else {
        components_from(a, start, at + 1)
    }
}

/// The components of a path: the pieces between its slashes.
pub open spec fn components(a: Seq<u8>) -> Seq<Seq<u8>> {
    components_from(a, 0, 0)
}

/// The component `x` comes before the component `y`: at the first position
/// where they part, `x` has ended or has the smaller byte.
pub open spec fn component_before(x: Seq<u8>, y: Seq<u8>) -> bool {
    exists|k: int| #[trigger] agree_upto(x, y, k) && k < y.len() && (k == x.len() || x[k] < y[k])
}

/// The first `k` components of `p` and of `q` are the same.
pub open spec fn same_upto(p: Seq<Seq<u8>>, q: Seq<Seq<u8>>, k: int) -> bool {
    0 <= k <= p.len() && k <= q.len() && forall|i: int| 0 <= i < k ==> p[i] == q[i]
}

/// The list of components `p` comes before the list `q`: at the first
/// component where they part, `p` has ended or has the component that
/// comes first.
pub open spec fn components_before(p: Seq<Seq<u8>>, q: Seq<Seq<u8>>) -> bool {
    exists|k: int| #[trigger]
        same_upto(p, q, k) && k < q.len() && (k == p.len() || component_before(p[k], q[k]))
}

/// What `components_from` begins with: the component that ends at the next
/// slash.
proof fn first_component(a: Seq<u8>, start: int, at: int)
    requires
        0 <= start <= at <= a.len(),
    ensures
        at <= component_end(a, at) <= a.len(),
        components_from(a, start, at).len() >= 1,
        components_from(a, start, at)[0] == a.subrange(start, component_end(a, at)),
        component_end(a, at) < a.len() ==> components_from(a, start, at).len() >= 2,
        forall|i: int| at <= i < component_end(a, at) ==> a[i] != 0x2f,
    decreases a.len() - at,
{
    if at >= a.len() {
    } else if a[at] == 0x2f {
        first_component(a, at + 1, at + 1);
    } else {
        first_component(a, start, at + 1);
    }
}

/// Of two components at most one comes before the other, and none before
/// itself.
proof fn component_before_is_asymmetric(x: Seq<u8>, y: Seq<u8>)
    ensures
        !(component_before(x, y) && component_before(y, x)),
        !component_before(x, x),
{
    if component_before(x, y) && component_before(y, x) {
        let k = choose|k: int| #[trigger]
            agree_upto(x, y, k) && k < y.len() && (k == x.len() || x[k] < y[k]);
        let m = choose|m: int| #[trigger]
            agree_upto(y, x, m) && m < x.len() && (m == y.len() || y[m] < x[m]);
        if k < m {
            assert(y[k] == x[k]);
        } else if m < k {
            assert(x[m] == y[m]);
        }
    }
    if component_before(x, x) {
        let k = choose|k: int| #[trigger]
            agree_upto(x, x, k) && k < x.len() && (k == x.len() || x[k] < x[k]);
    }
}

/// Of two lists of components at most one comes before the other, and none
/// before itself.
proof fn components_before_is_asymmetric(p: Seq<Seq<u8>>, q: Seq<Seq<u8>>)
    ensures
        !(components_before(p, q) && components_before(q, p)),
        !components_before(p, p),
{
    if components_before(p, q) && components_before(q, p) {
        let k = choose|k: int| #[trigger]
            same_upto(p, q, k) && k < q.len() && (k == p.len() || component_before(p[k], q[k]));
        let m = choose|m: int| #[trigger]
            same_upto(q, p, m) && m < p.len() && (m == q.len() || component_before(q[m], p[m]));
        if k < m {
            assert(q[k] == p[k]);
            component_before_is_asymmetric(p[k], p[k]);
        } else if m < k {
            assert(p[m] == q[m]);
            component_before_is_asymmetric(q[m], q[m]);
        } else {
            component_before_is_asymmetric(p[k], q[k]);
        }
    }
    if components_before(p, p) {
        let k = choose|k: int| #[trigger]
            same_upto(p, p, k) && k < p.len() && (k == p.len() || component_before(p[k], p[k]));
        component_before_is_asymmetric(p[k], p[k]);
    }
}

/// A common first component does not change the order of two lists.
proof fn common_first_component(x: Seq<u8>, p: Seq<Seq<u8>>, q: Seq<Seq<u8>>)
    requires
        components_before(p, q),
    ensures
        components_before(seq![x] + p, seq![x] + q),
{
    let k = choose|k: int| #[trigger]
        same_upto(p, q, k) && k < q.len() && (k == p.len() || component_before(p[k], q[k]));
    let pp = seq![x] + p;
    let qq = seq![x] + q;
    assert(same_upto(pp, qq, k + 1)) by {
        assert forall|i: int| 0 <= i < k + 1 implies pp[i] == qq[i] by {
            if i > 0 {
                assert(pp[i] == p[i - 1]);
                assert(qq[i] == q[i - 1]);
            }
        }
    }
    if k < p.len() {
        assert(pp[k + 1] == p[k]);
        assert(qq[k + 1] == q[k]);
    }
}

/// If `a` parts from `b` at position `k` the way of a path that comes
/// first, then their components from any common beginning do so too.
proof fn earlier_path_has_earlier_components(a: Seq<u8>, b: Seq<u8>, k: int, start: int, at: int)
    requires
        agree_upto(a, b, k),
        k < b.len(),
        k == a.len() || rank(a[k]) < rank(b[k]),
        0 <= start <= at <= k,
        forall|i: int| start <= i < at ==> a[i] != 0x2f,
    ensures
        components_before(components_from(a, start, at), components_from(b, start, at)),
    decreases k - at,
{
    let ca = components_from(a, start, at);
    let cb = components_from(b, start, at);
    first_component(b, start, at);
    if at < k {
        assert(a[at] == b[at]);
        if a[at] == 0x2f {
            earlier_path_has_earlier_components(a, b, k, at + 1, at + 1);
            assert(a.subrange(start, at) =~= b.subrange(start, at));
            common_first_component(
                a.subrange(start, at),
                components_from(a, at + 1, at + 1),
                components_from(b, at + 1, at + 1),
            );
        } else {
            earlier_path_has_earlier_components(a, b, k, start, at + 1);
        }
    } else {
        first_component(a, start, at);
        let ea = component_end(a, k);
        let eb = component_end(b, k);
        let x = a.subrange(start, ea);
        let y = b.subrange(start, eb);
        assert(ca[0] == x);
        assert(cb[0] == y);
        if k == a.len() || a[k] == 0x2f {
            assert(ea == k);
            if b[k] == 0x2f {
                assert(eb == k);
                assert(x =~= y);
                assert(ca.len() == 1 || ca.len() >= 2);
                if k == a.len() {
                    assert(ca.len() == 1);
                    assert(same_upto(ca, cb, 1));
                } else {
                    // both have a slash at `k`: ranks are equal, which cannot be
                    assert(false);
                }
            } else {
                first_component(b, start, k + 1);
                assert(eb == component_end(b, k + 1));
                assert(eb > k);
                assert(agree_upto(x, y, k - start)) by {
                    assert forall|i: int| 0 <= i < k - start implies x[i] == y[i] by {
                        assert(a[start + i] == b[start + i]);
                    }
                }
                assert(component_before(x, y));
                assert(same_upto(ca, cb, 0));
            }
        } else {
            assert(b[k] != 0x2f);
            first_component(a, start, k + 1);
            first_component(b, start, k + 1);
            assert(ea == component_end(a, k + 1));
            assert(eb == component_end(b, k + 1));
            assert(ea > k && eb > k);
            assert(agree_upto(x, y, k - start)) by {
                assert forall|i: int| 0 <= i < k - start implies x[i] == y[i] by {
                    assert(a[start + i] == b[start + i]);
                }
            }
            assert(x[k - start] == a[k]);
            assert(y[k - start] == b[k]);
            assert(component_before(x, y));
            assert(same_upto(ca, cb, 0));
        }
    }
}

/// The order of paths is the order by components: a path comes before
/// another exactly if its list of components comes before the other's,
/// the components being compared byte by byte.
pub proof fn order_is_by_components(a: Seq<u8>, b: Seq<u8>)
    ensures
        bytes_before(a, b) <==> components_before(components(a), components(b)),
{
    if bytes_before(a, b) {
        let k = choose|k: int| #[trigger]
            agree_upto(a, b, k) && k < b.len() && (k == a.len() || rank(a[k]) < rank(b[k]));
        earlier_path_has_earlier_components(a, b, k, 0, 0);
    } else if components_before(components(a), components(b)) {
        if a == b {
            components_before_is_asymmetric(components(a), components(a));
        } else {
            assert(agree_upto(a, b, 0));
            bytes_part_somewhere(a, b, 0);
            let k = choose|k: int| #[trigger]
                agree_upto(b, a, k) && k < a.len() && (k == b.len() || rank(b[k]) < rank(a[k]));
            earlier_path_has_earlier_components(b, a, k, 0, 0);
            components_before_is_asymmetric(components(a), components(b));
        }
    }
}

/// How one path stands to another in the order of paths.
#[derive(Debug, Clone, Copy, PartialEq, Eq, Structural)]
pub enum Order {
    /// The first comes before the second.
    Before,
    /// The two are the same path.
    Same,
    /// The first comes after the second.
    After,
}

/// How the path `a` stands to the path `b`.
pub fn compare_paths(a: &str, b: &str) -> (order: Order)
    ensures
        match order {
            Order::Before => path_before(a@, b@),
            Order::Same => a@ == b@,
            Order::After => path_before(b@, a@),
        },
{
    let x = a.as_bytes();
    let y = b.as_bytes();
    let n = if x.len() <= y.len() {
        x.len()
    } else {
        y.len()
    };
    let mut i: usize = 0;
    while i < n
        invariant
            i <= n,
            n <= x@.len(),
            n <= y@.len(),
            x@ == encode_utf8(a@),
            y@ == encode_utf8(b@),
            agree_upto(x@, y@, i as int),
        decreases n - i,
    {
        let p = rank_of(x[i]);
        let q = rank_of(y[i]);
        if p < q {
            return Order::Before;
        }
        if p > q {
            assert(agree_upto(y@, x@, i as int));
            return Order::After;
        }
        i = i + 1;
    }
    if x.len() < y.len() {
        Order::Before
    } else if x.len() > y.len() {
        assert(agree_upto(y@, x@, i as int));
        Order::After
    } else {
        proof {
            assert(x@ =~= y@);
            encode_utf8_decode_utf8(a@);
            encode_utf8_decode_utf8(b@);
        }
        Order::Same
    }
}

/// The texts of a list of strings.
pub open spec fn texts(list: Seq<String>) -> Seq<Seq<char>> {
    Seq::new(list.len(), |k: int| list[k]@)
}

/// The ascending list `t` with the path `x` put in its place; `t` itself
/// if it holds `x` already.
pub open spec fn with_path(t: Seq<Seq<char>>, x: Seq<char>) -> Seq<Seq<char>>
    decreases t.len(),
{
    if t.len() == 0 {
        seq![x]
    } else if t.last() == x {
        t
    } else if path_before(t.last(), x) {
        t.push(x)
    } else {
        with_path(t.drop_last(), x).push(t.last())
    }
}

/// The paths of `s` in ascending order, each once.
pub open spec fn sorted_unique(s: Seq<Seq<char>>) -> Seq<Seq<char>>
    decreases s.len(),
{
    if s.len() == 0 {
        Seq::empty()
    } else {
        with_path(sorted_unique(s.drop_last()), s.last())
    }
}

/// Putting a path into an ascending list keeps the list ascending and adds
/// that path to what it holds, and nothing else.
pub proof fn with_path_is_exact(t: Seq<Seq<char>>, x: Seq<char>)
    requires
        ascending(t),
    ensures
        ascending(with_path(t, x)),
        forall|p: Seq<char>| #[trigger] with_path(t, x).contains(p) <==> (t.contains(p) || p == x),
        with_path(t, x).contains(x),
        t.len() <= with_path(t, x).len() <= t.len() + 1,
    decreases t.len(),
{
    let r = with_path(t, x);
    if t.len() == 0 {
        assert(r[0] == x);
    } else if t.last() == x {
        assert(t[t.len() - 1] == x);
    } else if path_before(t.last(), x) {
        assert forall|i: int, j: int| 0 <= i < j < r.len() implies path_before(
            #[trigger] r[i],
            #[trigger] r[j],
        ) by {
            if j == t.len() {
                if i < t.len() - 1 {
                    assert(path_before(t[i], t[t.len() - 1]));
                    path_order_is_total(t[i], t.last(), x);
                }
            } else {
                assert(path_before(t[i], t[j]));
            }
        }
        assert forall|p: Seq<char>| r.contains(p) <==> (t.contains(p) || p == x) by {
            if r.contains(p) {
                let k = choose|k: int| 0 <= k < r.len() && r[k] == p;
                if k < t.len() {
                    assert(t[k] == p);
                }
            }
            if t.contains(p) {
                let k = choose|k: int| 0 <= k < t.len() && t[k] == p;
                assert(r[k] == p);
            }
            if p == x {
                assert(r[t.len() as int] == p);
            }
        }
    } else {
        let head = t.drop_last();
        let last = t.last();
        assert(ascending(head)) by {
            assert forall|i: int, j: int| 0 <= i < j < head.len() implies path_before(
                #[trigger] head[i],
                #[trigger] head[j],
            ) by {
                assert(path_before(t[i], t[j]));
            }
        }
        with_path_is_exact(head, x);
        let inner = with_path(head, x);
        path_order_is_total(x, last, x);
        assert(path_before(x, last));
        assert forall|i: int, j: int| 0 <= i < j < r.len() implies path_before(
            #[trigger] r[i],
            #[trigger] r[j],
        ) by {
            if j == inner.len() {
                assert(inner.contains(inner[i]));
                if inner[i] != x {
                    assert(head.contains(inner[i]));
                    let k = choose|k: int| 0 <= k < head.len() && head[k] == inner[i];
                    assert(path_before(t[k], t[t.len() - 1]));
                }
            } else {
                assert(path_before(inner[i], inner[j]));
            }
        }
        assert forall|p: Seq<char>| r.contains(p) <==> (t.contains(p) || p == x) by {
            if r.contains(p) {
                let k = choose|k: int| 0 <= k < r.len() && r[k] == p;
                if k < inner.len() {
                    assert(inner[k] == p);
                    assert(inner.contains(p));
                    if p != x {
                        assert(head.contains(p));
                        let m = choose|m: int| 0 <= m < head.len() && head[m] == p;
                        assert(t[m] == p);
                    }
                } else {
                    assert(t[t.len() - 1] == p);
                }
            }
            if t.contains(p) {
                let k = choose|k: int| 0 <= k < t.len() && t[k] == p;
                if k < head.len() {
                    assert(head[k] == p);
                    assert(head.contains(p));
                    assert(inner.contains(p));
                    let m = choose|m: int| 0 <= m < inner.len() && inner[m] == p;
                    assert(r[m] == p);
                } else {
                    assert(r[r.len() - 1] == p);
                }
            }
            if p == x {
                assert(inner.contains(p));
                let m = choose|m: int| 0 <= m < inner.len() && inner[m] == p;
                assert(r[m] == p);
            }
        }
    }
}

/// `sorted_unique(s)` is in ascending order without repeats and holds
/// exactly the paths of `s`.
pub proof fn sorted_unique_is_exact(s: Seq<Seq<char>>)
    ensures
        ascending(sorted_unique(s)),
        forall|p: Seq<char>| #[trigger] sorted_unique(s).contains(p) <==> s.contains(p),
        sorted_unique(s).len() <= s.len(),
    decreases s.len(),
{
    if s.len() > 0 {
        let head = s.drop_last();
        sorted_unique_is_exact(head);
        with_path_is_exact(sorted_unique(head), s.last());
        assert forall|p: Seq<char>| sorted_unique(s).contains(p) <==> s.contains(p) by {
            if s.contains(p) {
                let k = choose|k: int| 0 <= k < s.len() && s[k] == p;
                if k < head.len() {
                    assert(head[k] == p);
                }
            }
            if head.contains(p) {
                let k = choose|k: int| 0 <= k < head.len() && head[k] == p;
                assert(s[k] == p);
            }
            if p == s.last() {
                assert(s[s.len() - 1] == p);
            }
        }
    }
}

/// Where `x` belongs at position `i` of the ascending list `t` (everything
/// from `i` on comes after it, and what stands before `i`, if anything, is
/// `x` itself or comes before it), `with_path` puts it there, or leaves the
/// list alone if `x` stands before `i` already.
proof fn with_path_at(t: Seq<Seq<char>>, x: Seq<char>, i: int)
    requires
        0 <= i <= t.len(),
        forall|k: int| i <= k < t.len() ==> path_before(x, #[trigger] t[k]),
        i > 0 ==> t[i - 1] == x || path_before(t[i - 1], x),
    ensures
        with_path(t, x) == (if i > 0 && t[i - 1] == x {
            t
        } else {
            t.insert(i, x)
        }),
    decreases t.len(),
{
    if t.len() == 0 {
        assert(t.insert(0, x) =~= seq![x]);
    } else if i == t.len() {
        if t.last() != x {
            assert(t.insert(i, x) =~= t.push(x));
        }
    } else {
        let last = t.last();
        assert(path_before(x, t[t.len() - 1]));
        path_order_is_total(x, last, x);
        let head = t.drop_last();
        assert forall|k: int| i <= k < head.len() implies path_before(x, #[trigger] head[k]) by {
            assert(path_before(x, t[k]));
        }
        with_path_at(head, x, i);
        if i > 0 && t[i - 1] == x {
            assert(head.push(last) =~= t);
        } else {
            assert(head.insert(i, x).push(last) =~= t.insert(i, x));
        }
    }
}

/// The paths of `files` in ascending order, each once.
pub fn sort_unique(files: Vec<String>) -> (sorted: Vec<String>)
    ensures
        texts(sorted@) == sorted_unique(texts(files@)),
{
    let mut sorted: Vec<String> = Vec::new();
    let n = files.len();
    let mut taken: usize = 0;
    assert(texts(files@).take(0) =~= Seq::<Seq<char>>::empty());
    while taken < n
        invariant
            n == files@.len(),
            taken <= n,
            texts(sorted@) == sorted_unique(texts(files@).take(taken as int)),
        decreases n - taken,
    {
        let file = files[taken].clone();
        let ghost before = texts(sorted@);
        proof {
            sorted_unique_is_exact(texts(files@).take(taken as int));
            assert(texts(files@).take(taken + 1).drop_last() =~= texts(files@).take(taken as int));
            assert(texts(files@).take(taken + 1).last() == file@);
        }
        let mut i: usize = sorted.len();
        let mut present = false;
        while i > 0
            invariant_except_break
                !present,
            invariant
                i <= sorted@.len(),
                texts(sorted@) == before,
                forall|k: int| i <= k < sorted@.len() ==> path_before(file@, #[trigger] before[k]),
            ensures
                i > 0 ==> (before[i - 1] == file@ && present) || (path_before(
                    before[i - 1],
                    file@,
                ) && !present),
                i == 0 ==> !present,
            decreases i,
        {
            match compare_paths(sorted[i - 1].as_str(), file.as_str()) {
                Order::After => {
                    i = i - 1;
                },
                Order::Same => {
                    present = true;
                    break ;
                },
                Order::Before => {
                    break ;
                },
            }
        }
        proof {
            with_path_at(before, file@, i as int);
        }
        if !present {
            sorted.insert(i, file);
            assert(texts(sorted@) =~= before.insert(i as int, file@));
        }
        taken = taken + 1;
    }
    assert(texts(files@).take(n as int) =~= texts(files@));
    sorted
}

/// The path of the entry `name` in the directory `base`: the two joined by a
/// slash, unless `base` ends in one already or is empty.
pub open spec fn joined(base: Seq<char>, name: Seq<char>) -> Seq<char> {
    if base.len() == 0 {
        name
    } else if base.last() == '/' {
        base + name
    } else {
        base + seq!['/'] + name
    }
}

/// The path of the entry `name` in the directory `base`. The name is taken
/// as it is: it is meant to be relative.
pub fn join_path(base: &str, name: &str) -> (path: String)
    ensures
        path@ == joined(base@, name@),
{
    let n = base.unicode_len();
    if n == 0 {
        name.to_owned()
    } else if base.get_char(n - 1) == '/' {
        base.to_owned().concat(name)
    } else {
        proof {
            reveal_strlit("/");
            assert("/"@ =~= seq!['/']);
        }
        base.to_owned().concat("/").concat(name)
    }
}

/// The character of the decimal digit `d`.
pub open spec fn digit_char(d: nat) -> char {
    if d == 0 {
        '0'
    } else if d == 1 {
        '1'
    } else if d == 2 {
        '2'
    } else if d == 3 {
        '3'
    } else if d == 4 {
        '4'
    } else if d == 5 {
        '5'
    } else if d == 6 {
        '6'
    } else if d == 7 {
        '7'
    } else if d == 8 {
        '8'
    } else {
        '9'
    }
}

/// The number `n` in decimal digits, without leading zeros.
pub open spec fn decimal(n: nat) -> Seq<char>
    decreases n,
{
    if n < 10 {
        seq![digit_char(n)]
    } else {
        decimal(n / 10).push(digit_char(n % 10))
    }
}

/// The decimal digit `d` as text.
fn digit_text(d: usize) -> (text: &'static str)
    requires
        d < 10,
    ensures
        text@ == seq![digit_char(d as nat)],
{
    proof {
        reveal_strlit("0");
        reveal_strlit("1");
        reveal_strlit("2");
        reveal_strlit("3");
        reveal_strlit("4");
        reveal_strlit("5");
        reveal_strlit("6");
        reveal_strlit("7");
        reveal_strlit("8");
        reveal_strlit("9");
    }
    let text = if d == 0 {
        "0"
    } else if d == 1 {
        "1"
    } else if d == 2 {
        "2"
    } else if d == 3 {
        "3"
    } else if d == 4 {
        "4"
    } else if d == 5 {
        "5"
    } else if d == 6 {
        "6"
    } else if d == 7 {
        "7"
    } else if d == 8 {
        "8"
    } else {
        "9"
    };
    assert(text@ =~= seq![digit_char(d as nat)]);
    text
}

/// The number `n` in decimal digits.
pub fn decimal_text(n: usize) -> (text: String)
    ensures
        text@ == decimal(n as nat),
    decreases n,
{
    if n < 10 {
        digit_text(n).to_owned()
    } else {
        let head = decimal_text(n / 10);
        let text = head.concat(digit_text(n % 10));
        assert(text@ =~= decimal((n / 10) as nat).push(digit_char((n % 10) as nat)));
        text
    }
}

} // verus!
