//! Paths given as their components, ordered as paths compare: component by
//! component, each by its text, a path before every longer path it begins.
use vstd::prelude::*;
use crate::archive::order::{lemma_text_less_transitive, lemma_text_less_trichotomy, str_less, text_less};
use crate::text::{str_eq, texts};

verus! {

/// Whether the path with components `a` sorts strictly before the one with `b`.
pub open spec fn path_less(a: Seq<Seq<char>>, b: Seq<Seq<char>>) -> bool
    decreases a.len(),
{
    if a.len() == 0 {
        b.len() > 0
    } else if b.len() == 0 {
        false
    } else if a[0] != b[0] {
        text_less(a[0], b[0])
    } else {
        path_less(a.drop_first(), b.drop_first())
    }
}

/// The order is strict and total: exactly one of `a < b`, `a == b`, `b < a` holds.
pub proof fn lemma_path_less_trichotomy(a: Seq<Seq<char>>, b: Seq<Seq<char>>)
    ensures
        a == b ==> !path_less(a, b),
        a != b ==> path_less(a, b) != path_less(b, a),
    decreases a.len(),
{
    if a.len() > 0 && b.len() > 0 && a[0] == b[0] {
        lemma_path_less_trichotomy(a.drop_first(), b.drop_first());
        if a != b {
            assert(a.drop_first() != b.drop_first()) by {
                if a.drop_first() == b.drop_first() {
                    assert(a =~= seq![a[0]] + a.drop_first());
                    assert(b =~= seq![b[0]] + b.drop_first());
                }
            }
        }
    }
    if a.len() > 0 && b.len() > 0 && a[0] != b[0] {
        lemma_text_less_trichotomy(a[0], b[0]);
    }
    if a.len() == 0 && b.len() == 0 {
        assert(a =~= b);
    }
}

/// The order is transitive.
pub proof fn lemma_path_less_transitive(a: Seq<Seq<char>>, b: Seq<Seq<char>>, c: Seq<Seq<char>>)
    requires
        path_less(a, b),
        path_less(b, c),
    ensures
        path_less(a, c),
    decreases a.len(),
{
    if a.len() > 0 && b.len() > 0 && c.len() > 0 {
        if a[0] == b[0] && b[0] == c[0] {
            lemma_path_less_transitive(a.drop_first(), b.drop_first(), c.drop_first());
        } else if a[0] == b[0] {
            lemma_text_less_trichotomy(a[0], c[0]);
        } else if b[0] == c[0] {
            lemma_text_less_trichotomy(a[0], c[0]);
        } else {
            lemma_text_less_transitive(a[0], b[0], c[0]);
            lemma_text_less_trichotomy(a[0], c[0]);
        }
    }
}

/// The component texts of each path.
pub open spec fn path_views(paths: Seq<Vec<String>>) -> Seq<Seq<Seq<char>>> {
    Seq::new(paths.len(), |i: int| texts(paths[i]@))
}

/// Whether `a` sorts strictly before `b`.
pub fn components_less(a: &Vec<String>, b: &Vec<String>) -> (r: bool)
    ensures
        r == path_less(texts(a@), texts(b@)),
{
    let mut i: usize = 0;
    assert(texts(a@).skip(0) =~= texts(a@));
    assert(texts(b@).skip(0) =~= texts(b@));
    while i < a.len() && i < b.len() && str_eq(a[i].as_str(), b[i].as_str())
        invariant
            i <= a@.len(),
            i <= b@.len(),
            path_less(texts(a@), texts(b@)) == path_less(texts(a@).skip(i as int), texts(b@).skip(i as int)),
        decreases a@.len() - i,
    {
        proof {
            assert(texts(a@).skip(i as int).drop_first() =~= texts(a@).skip(i + 1));
            assert(texts(b@).skip(i as int).drop_first() =~= texts(b@).skip(i + 1));
        }
        i = i + 1;
    }
    proof {
        assert(texts(a@).skip(i as int).len() == a@.len() - i);
        assert(texts(b@).skip(i as int).len() == b@.len() - i);
    }
    if i == a.len() {
        i < b.len()
    } else if i == b.len() {
        false
    } else {
        proof {
            assert(texts(a@).skip(i as int)[0] == a@[i as int]@);
            assert(texts(b@).skip(i as int)[0] == b@[i as int]@);
        }
        str_less(a[i].as_str(), b[i].as_str())
    }
}

/// Whether `s` is strictly sorted.
pub open spec fn strictly_sorted(s: Seq<Seq<Seq<char>>>) -> bool {
    forall|i: int, j: int| 0 <= i < j < s.len() ==> path_less(#[trigger] s[i], #[trigger] s[j])
}

/// Each of `paths` once, sorted as paths compare.
pub fn sorted_paths(paths: Vec<Vec<String>>) -> (r: Vec<Vec<String>>)
    ensures
        strictly_sorted(path_views(r@)),
        forall|x: Seq<Seq<char>>| path_views(r@).contains(x) <==> path_views(paths@).contains(x),
{
    let ghost all = path_views(paths@);
    let mut r: Vec<Vec<String>> = Vec::new();
    let mut rest = paths;
    let ghost mut done: int = 0;
    while rest.len() > 0
        invariant
            0 <= done <= all.len(),
            path_views(rest@) == all.subrange(done, all.len() as int),
            strictly_sorted(path_views(r@)),
            forall|x: Seq<Seq<char>>| path_views(r@).contains(x) <==> all.subrange(0, done).contains(x),
        decreases rest@.len(),
    {
        let ghost old_rest = rest@;
        proof {
            assert(path_views(old_rest).len() == old_rest.len());
            assert(path_views(old_rest)[0] == all[done]);
        }
        let item = rest.remove(0);
        let ghost x = texts(item@);
        proof {
            assert(item == old_rest[0]);
            assert(x == all[done]);
            assert(path_views(rest@) =~= all.subrange(done + 1, all.len() as int)) by {
                assert forall|k: int| 0 <= k < rest@.len() implies path_views(rest@)[k] == all.subrange(
                    done + 1,
                    all.len() as int,
                )[k] by {
                    assert(rest@[k] == old_rest[k + 1]);
                    assert(path_views(old_rest)[k + 1] == all[done + 1 + k]);
                }
            }
        }
        let ghost before = path_views(r@);
        let mut p: usize = 0;
        while p < r.len() && components_less(&r[p], &item)
            invariant
                p <= r@.len(),
                before == path_views(r@),
                x == texts(item@),
                forall|k: int| 0 <= k < p ==> path_less(#[trigger] before[k], x),
            decreases r@.len() - p,
        {
            proof {
                assert(before[p as int] == texts(r@[p as int]@));
            }
            p = p + 1;
        }
        let present = p < r.len() && !components_less(&item, &r[p]);
        proof {
            if p < r@.len() {
                assert(before[p as int] == texts(r@[p as int]@));
                lemma_path_less_trichotomy(before[p as int], x);
            }
            if !present {
                assert forall|k: int| p <= k < before.len() implies path_less(x, #[trigger] before[k]) by {
                    if k > p {
                        lemma_path_less_transitive(x, before[p as int], before[k]);
                    }
                }
            } else {
                assert(before[p as int] == x);
                assert(before.contains(x));
            }
        }
        if !present {
            let ghost old_r = r@;
            r.insert(p, item);
            proof {
                assert(path_views(r@) =~= before.insert(p as int, x)) by {
                    assert(r@ == old_r.insert(p as int, item));
                }
                let after = path_views(r@);
                assert forall|i: int, j: int| 0 <= i < j < after.len() implies path_less(
                    #[trigger] after[i],
                    #[trigger] after[j],
                ) by {
                    if i < p && j == p {
                    } else if i == p && j > p {
                        assert(after[j] == before[j - 1]);
                    } else if i < p && j > p {
                        assert(after[j] == before[j - 1]);
                    } else if j > p {
                        assert(after[i] == before[i - 1]);
                        assert(after[j] == before[j - 1]);
                    }
                }
                assert forall|y: Seq<Seq<char>>| after.contains(y) <==> before.contains(y) || y == x by {
                    if after.contains(y) {
                        let k = choose|k: int| 0 <= k < after.len() && after[k] == y;
                        if k < p {
                            assert(before[k] == y);
                        } else if k > p {
                            assert(before[k - 1] == y);
                        }
                    }
                    if before.contains(y) {
                        let k = choose|k: int| 0 <= k < before.len() && before[k] == y;
                        if k < p {
                            assert(after[k] == y);
                        } else {
                            assert(after[k + 1] == y);
                        }
                    }
                    if y == x {
                        assert(after[p as int] == x);
                    }
                }
            }
        }
        proof {
            let seen = all.subrange(0, done);
            assert(all.subrange(0, done + 1) =~= seen.push(x));
            assert forall|y: Seq<Seq<char>>| #[trigger] seen.push(x).contains(y) <==> seen.contains(y) || y == x by {
                if seen.push(x).contains(y) {
                    let k = choose|k: int| 0 <= k < seen.push(x).len() && seen.push(x)[k] == y;
                    if k < seen.len() {
                        assert(seen[k] == y);
                    }
                }
                if seen.contains(y) {
                    let k = choose|k: int| 0 <= k < seen.len() && seen[k] == y;
                    assert(seen.push(x)[k] == y);
                }
                if y == x {
                    assert(seen.push(x)[seen.len() as int] == x);
                }
            }
            done = done + 1;
        }
    }
    proof {
        assert(all.subrange(0, done) =~= all);
    }
    r
}

} // verus!
