//! Orders on paths: by depth and then component by component, component by
//! component alone, and case-insensitively by file name.
use vstd::prelude::*;
use std::cmp::Ordering;
use crate::paths::{components, file_name, path_components, path_file_name, views};
use crate::text::{chars_of, lower_of, lowercase};

verus! {

/// Three-way lexicographic comparison of character sequences by code point.
pub open spec fn chars_cmp(a: Seq<char>, b: Seq<char>) -> int
    decreases a.len(),
{
    if a.len() == 0 {
        if b.len() == 0 {
            0
        } else {
            -1
        }
    } else if b.len() == 0 {
        1
    } else if a[0] < b[0] {
        -1
    } else if a[0] > b[0] {
        1
    } else {
        chars_cmp(a.drop_first(), b.drop_first())
    }
}

/// Three-way lexicographic comparison of component lists.
pub open spec fn parts_cmp(a: Seq<Seq<char>>, b: Seq<Seq<char>>) -> int
    decreases a.len(),
{
    if a.len() == 0 {
        if b.len() == 0 {
            0
        } else {
            -1
        }
    } else if b.len() == 0 {
        1
    } else if chars_cmp(a[0], b[0]) != 0 {
        chars_cmp(a[0], b[0])
    } else {
        parts_cmp(a.drop_first(), b.drop_first())
    }
}

/// The ways in which this crate orders lists of paths.
#[derive(Clone, Copy, PartialEq, Eq, Structural, Debug)]
pub enum PathOrder {
    /// Fewer components first, then component by component.
    DepthThenComponents,
    /// Component by component.
    Components,
    /// By the lowercase form of the file name (empty when there is none).
    FoldedName,
}

/// The file name of a path as the case-insensitive order reads it.
pub open spec fn name_key(p: Seq<char>) -> Seq<char> {
    match file_name(p) {
        Some(n) => n,
        None => seq![],
    }
}

/// Three-way comparison of two paths under `order`.
pub open spec fn path_cmp(a: Seq<char>, b: Seq<char>, order: PathOrder) -> int {
    match order {
        PathOrder::DepthThenComponents => if components(a).len() < components(b).len() {
            -1
        } else if components(a).len() > components(b).len() {
            1
        } else {
            parts_cmp(components(a), components(b))
        },
        PathOrder::Components => parts_cmp(components(a), components(b)),
        PathOrder::FoldedName => chars_cmp(lower_of(name_key(a)), lower_of(name_key(b))),
    }
}

/// `v` lists its paths in `order`.
pub open spec fn sorted_by(v: Seq<String>, order: PathOrder) -> bool {
    forall|i: int, j: int| 0 <= i < j < v.len() ==> path_cmp(v[i]@, v[j]@, order) <= 0
}

pub open spec fn ordering_value(o: Ordering) -> int {
    match o {
        Ordering::Less => -1,
        Ordering::Equal => 0,
        Ordering::Greater => 1,
    }
}

fn ordering_of(c: i8) -> (r: Ordering)
    requires
        -1 <= c <= 1,
    ensures
        ordering_value(r) == c,
{
    if c < 0 {
        Ordering::Less
    } else if c > 0 {
        Ordering::Greater
    } else {
        Ordering::Equal
    }
}

/// Compares two character sequences by code point.
pub fn compare_chars(a: &Vec<char>, b: &Vec<char>) -> (r: i8)
    ensures
        r == chars_cmp(a@, b@),
        -1 <= r <= 1,
{
    let mut i: usize = 0;
    assert(a@.skip(0) =~= a@ && b@.skip(0) =~= b@);
    while i < a.len() && i < b.len()
        invariant
            i <= a.len(),
            i <= b.len(),
            chars_cmp(a@, b@) == chars_cmp(a@.skip(i as int), b@.skip(i as int)),
        decreases a.len() - i,
    {
        let ghost sa = a@.skip(i as int);
        let ghost sb = b@.skip(i as int);
        assert(sa[0] == a@[i as int] && sb[0] == b@[i as int]);
        if a[i] < b[i] {
            return -1;
        }
        if a[i] > b[i] {
            return 1;
        }
        assert(sa.drop_first() =~= a@.skip(i + 1));
        assert(sb.drop_first() =~= b@.skip(i + 1));
        i = i + 1;
    }
    let ghost sa = a@.skip(i as int);
    let ghost sb = b@.skip(i as int);
    if i < a.len() {
        assert(sb.len() == 0 && sa.len() > 0);
        1
    } else if i < b.len() {
        assert(sa.len() == 0 && sb.len() > 0);
        -1
    } else {
        assert(sa.len() == 0 && sb.len() == 0);
        0
    }
}

fn compare_parts(a: &Vec<Vec<char>>, b: &Vec<Vec<char>>) -> (r: i8)
    ensures
        r == parts_cmp(views(a@), views(b@)),
        -1 <= r <= 1,
{
    let ghost va = views(a@);
    let ghost vb = views(b@);
    let mut i: usize = 0;
    assert(va.skip(0) =~= va && vb.skip(0) =~= vb);
    while i < a.len() && i < b.len()
        invariant
            va == views(a@),
            vb == views(b@),
            i <= a.len(),
            i <= b.len(),
            parts_cmp(va, vb) == parts_cmp(va.skip(i as int), vb.skip(i as int)),
        decreases a.len() - i,
    {
        let ghost sa = va.skip(i as int);
        let ghost sb = vb.skip(i as int);
        assert(sa[0] == a@[i as int]@ && sb[0] == b@[i as int]@);
        let c = compare_chars(&a[i], &b[i]);
        if c != 0 {
            return c;
        }
        assert(sa.drop_first() =~= va.skip(i + 1));
        assert(sb.drop_first() =~= vb.skip(i + 1));
        i = i + 1;
    }
    let ghost sa = va.skip(i as int);
    let ghost sb = vb.skip(i as int);
    if i < a.len() {
        assert(sb.len() == 0 && sa.len() > 0);
        1
    } else if i < b.len() {
        assert(sa.len() == 0 && sb.len() > 0);
        -1
    } else {
        assert(sa.len() == 0 && sb.len() == 0);
        0
    }
}

/// Compares two paths under `order`.
pub fn compare_paths(a: &String, b: &String, order: PathOrder) -> (r: Ordering)
    ensures
        ordering_value(r) == path_cmp(a@, b@, order),
{
    match order {
        PathOrder::FoldedName => {
            let na = match path_file_name(a.as_str()) {
                Some(n) => n,
                None => String::new(),
            };
            let nb = match path_file_name(b.as_str()) {
                Some(n) => n,
                None => String::new(),
            };
            let la = chars_of(lowercase(na.as_str()).as_str());
            let lb = chars_of(lowercase(nb.as_str()).as_str());
            ordering_of(compare_chars(&la, &lb))
        },
        _ => {
            let ca = path_components(a.as_str());
            let cb = path_components(b.as_str());
            if order == PathOrder::DepthThenComponents {
                if ca.len() < cb.len() {
                    return Ordering::Less;
                }
                if ca.len() > cb.len() {
                    return Ordering::Greater;
                }
            }
            ordering_of(compare_parts(&ca, &cb))
        },
    }
}

/// Relies on `slice::sort_by`: with a comparison that is a total order it
/// rearranges the items so that no item compares greater than one after it.
#[verifier::external_body]
fn sort_with(v: &mut Vec<String>, order: PathOrder)
    ensures
        final(v)@.to_multiset() == old(v)@.to_multiset(),
        final(v)@.len() == old(v)@.len(),
        sorted_by(final(v)@, order),
{
    v.sort_by(|a, b| compare_paths(a, b, order))
}

/// Sorts `v` in `order`, keeping exactly the same paths.
pub fn sort_paths(v: &mut Vec<String>, order: PathOrder)
    ensures
        final(v)@.to_multiset() == old(v)@.to_multiset(),
        final(v)@.len() == old(v)@.len(),
        sorted_by(final(v)@, order),
{
    sort_with(v, order);
}

/// Comparing characters sequences the other way round flips the result,
/// and only equal sequences compare equal.
pub proof fn lemma_chars_cmp_antisymmetric(a: Seq<char>, b: Seq<char>)
    ensures
        chars_cmp(a, b) == -chars_cmp(b, a),
        -1 <= chars_cmp(a, b) <= 1,
        chars_cmp(a, b) == 0 ==> a == b,
    decreases a.len(),
{
    if a.len() > 0 && b.len() > 0 && a[0] == b[0] {
        lemma_chars_cmp_antisymmetric(a.drop_first(), b.drop_first());
        if chars_cmp(a, b) == 0 {
            assert(a =~= seq![a[0]] + a.drop_first());
            assert(b =~= seq![b[0]] + b.drop_first());
        }
    } else if a.len() == 0 && b.len() == 0 {
        assert(a =~= b);
    }
}

/// The character order is transitive.
pub proof fn lemma_chars_cmp_transitive(a: Seq<char>, b: Seq<char>, c: Seq<char>)
    requires
        chars_cmp(a, b) <= 0,
        chars_cmp(b, c) <= 0,
    ensures
        chars_cmp(a, c) <= 0,
    decreases a.len(),
{
    if a.len() > 0 && b.len() > 0 && c.len() > 0 && a[0] == b[0] && b[0] == c[0] {
        lemma_chars_cmp_transitive(a.drop_first(), b.drop_first(), c.drop_first());
    }
}

/// Comparing component lists the other way round flips the result, and only
/// equal lists compare equal.
pub proof fn lemma_parts_cmp_antisymmetric(a: Seq<Seq<char>>, b: Seq<Seq<char>>)
    ensures
        parts_cmp(a, b) == -parts_cmp(b, a),
        -1 <= parts_cmp(a, b) <= 1,
        parts_cmp(a, b) == 0 ==> a == b,
    decreases a.len(),
{
    if a.len() > 0 && b.len() > 0 {
        lemma_chars_cmp_antisymmetric(a[0], b[0]);
        if chars_cmp(a[0], b[0]) == 0 {
            lemma_parts_cmp_antisymmetric(a.drop_first(), b.drop_first());
            if parts_cmp(a, b) == 0 {
                assert(a =~= seq![a[0]] + a.drop_first());
                assert(b =~= seq![b[0]] + b.drop_first());
            }
        }
    } else if a.len() == 0 && b.len() == 0 {
        assert(a =~= b);
    }
}

/// The component order is transitive.
pub proof fn lemma_parts_cmp_transitive(a: Seq<Seq<char>>, b: Seq<Seq<char>>, c: Seq<Seq<char>>)
    requires
        parts_cmp(a, b) <= 0,
        parts_cmp(b, c) <= 0,
    ensures
        parts_cmp(a, c) <= 0,
    decreases a.len(),
{
    if a.len() > 0 && b.len() > 0 && c.len() > 0 {
        lemma_chars_cmp_antisymmetric(a[0], b[0]);
        lemma_chars_cmp_antisymmetric(b[0], c[0]);
        lemma_chars_cmp_antisymmetric(a[0], c[0]);
        if chars_cmp(a[0], b[0]) == 0 && chars_cmp(b[0], c[0]) == 0 {
            lemma_parts_cmp_transitive(a.drop_first(), b.drop_first(), c.drop_first());
        } else {
            lemma_chars_cmp_transitive(a[0], b[0], c[0]);
            if chars_cmp(a[0], c[0]) == 0 {
                assert(a[0] == c[0]);
                if chars_cmp(a[0], b[0]) < 0 {
                    lemma_chars_cmp_transitive(b[0], c[0], a[0]);
                } else {
                    lemma_chars_cmp_transitive(c[0], a[0], b[0]);
                }
            }
        }
    }
}

/// Each path order is a total preorder, as `slice::sort_by` asks of its
/// comparison: swapping the paths flips the result, and it is transitive.
pub proof fn lemma_path_order_total(a: Seq<char>, b: Seq<char>, c: Seq<char>, order: PathOrder)
    ensures
        path_cmp(a, b, order) == -path_cmp(b, a, order),
        path_cmp(a, b, order) <= 0 && path_cmp(b, c, order) <= 0 ==> path_cmp(a, c, order) <= 0,
{
    match order {
        PathOrder::FoldedName => {
            lemma_chars_cmp_antisymmetric(lower_of(name_key(a)), lower_of(name_key(b)));
            if path_cmp(a, b, order) <= 0 && path_cmp(b, c, order) <= 0 {
                lemma_chars_cmp_transitive(
                    lower_of(name_key(a)),
                    lower_of(name_key(b)),
                    lower_of(name_key(c)),
                );
            }
        },
        _ => {
            lemma_parts_cmp_antisymmetric(components(a), components(b));
            if path_cmp(a, b, order) <= 0 && path_cmp(b, c, order) <= 0 {
                lemma_parts_cmp_antisymmetric(components(b), components(c));
                lemma_parts_cmp_antisymmetric(components(a), components(c));
                if parts_cmp(components(a), components(b)) <= 0 && parts_cmp(
                    components(b),
                    components(c),
                ) <= 0 {
                    lemma_parts_cmp_transitive(components(a), components(b), components(c));
                }
            }
        },
    }
}

} // verus!
