//! Sorted lists of names without duplicates.

use vstd::prelude::*;

use crate::name::PackageName;

verus! {

/// Whether `a` comes before `b`, character by character.
pub open spec fn before(a: Seq<char>, b: Seq<char>) -> bool
    decreases a.len(),
{
    if b.len() == 0 {
        false
    } else if a.len() == 0 {
        true
    } else if a[0] == b[0] {
        before(a.skip(1), b.skip(1))
    } else {
        a[0] < b[0]
    }
}

/// Whether each text comes before all that follow it.
pub open spec fn ascending(list: Seq<Seq<char>>) -> bool {
    forall|i: int, j: int| 0 <= i < j < list.len() ==> before(#[trigger] list[i], #[trigger] list[j])
}

/// The texts of a list of names.
pub open spec fn name_texts(names: Seq<PackageName>) -> Seq<Seq<char>> {
    Seq::new(names.len(), |i: int| names[i]@)
}

/// Whether two lists hold the same texts.
pub open spec fn same_elements(a: Seq<Seq<char>>, b: Seq<Seq<char>>) -> bool {
    forall|x: Seq<char>| a.contains(x) <==> b.contains(x)
}

/// No text comes before itself, and of two texts that differ exactly one comes before the other.
pub proof fn before_is_total(a: Seq<char>, b: Seq<char>)
    ensures
        !before(a, a),
        a == b || before(a, b) || before(b, a),
        !(before(a, b) && before(b, a)),
    decreases a.len() + b.len(),
{
    if a.len() > 0 && b.len() > 0 {
        if a[0] == b[0] {
            before_is_total(a.skip(1), b.skip(1));
            if a.skip(1) == b.skip(1) {
                assert(a == seq![a[0]] + a.skip(1));
                assert(b == seq![b[0]] + b.skip(1));
            }
        } else {
            before_is_total(a.skip(1), b);
        }
    } else if a.len() > 0 {
        before_is_total(a.skip(1), b);
    } else if b.len() == 0 {
        assert(a == b);
    }
}

/// What comes before a text comes before all that this text comes before.
pub proof fn before_is_transitive(a: Seq<char>, b: Seq<char>, c: Seq<char>)
    requires
        before(a, b),
        before(b, c),
    ensures
        before(a, c),
    decreases a.len(),
{
    if a.len() > 0 && a[0] == b[0] && b[0] == c[0] {
        before_is_transitive(a.skip(1), b.skip(1), c.skip(1));
    }
}

/// A sorted list without duplicates is determined by what it holds.
pub proof fn ascending_is_unique(a: Seq<Seq<char>>, b: Seq<Seq<char>>)
    requires
        ascending(a),
        ascending(b),
        same_elements(a, b),
    ensures
        a == b,
    decreases a.len(),
{
    if a.len() == 0 {
        if b.len() > 0 {
            assert(b.contains(b[0]));
        }
        assert(a == b);
    } else {
        assert(a.contains(a[0]));
        assert(b.contains(a[0]));
        assert(b.contains(b[0]));
        assert(a.contains(b[0]));
        let i = choose|i: int| 0 <= i < b.len() && b[i] == a[0];
        let j = choose|j: int| 0 <= j < a.len() && a[j] == b[0];
        before_is_total(a[0], b[0]);
        assert(a[0] == b[0]);
        let x = a.skip(1);
        let y = b.skip(1);
        assert forall|k: int, l: int| 0 <= k < l < x.len() implies before(
            #[trigger] x[k],
            #[trigger] x[l],
        ) by {
            assert(before(a[k + 1], a[l + 1]));
        }
        assert forall|k: int, l: int| 0 <= k < l < y.len() implies before(
            #[trigger] y[k],
            #[trigger] y[l],
        ) by {
            assert(before(b[k + 1], b[l + 1]));
        }
        assert forall|t: Seq<char>| x.contains(t) <==> y.contains(t) by {
            before_is_total(t, t);
            if x.contains(t) {
                let k = choose|k: int| 0 <= k < x.len() && x[k] == t;
                assert(a[k + 1] == t);
                assert(before(a[0], a[k + 1]));
                assert(a.contains(t));
                let l = choose|l: int| 0 <= l < b.len() && b[l] == t;
                assert(l > 0);
                assert(y[l - 1] == t);
            }
            if y.contains(t) {
                let k = choose|k: int| 0 <= k < y.len() && y[k] == t;
                assert(b[k + 1] == t);
                assert(before(b[0], b[k + 1]));
                assert(b.contains(t));
                let l = choose|l: int| 0 <= l < a.len() && a[l] == t;
                assert(l > 0);
                assert(x[l - 1] == t);
            }
        }
        ascending_is_unique(x, y);
        assert(a == seq![a[0]] + x);
        assert(b == seq![b[0]] + y);
    }
}

fn is_before(a: &str, b: &str) -> (r: bool)
    ensures
        r == before(a@, b@),
{
    let m: usize = a.unicode_len();
    let n: usize = b.unicode_len();
    let mut i: usize = 0;
    assert(a@.skip(0) == a@);
    assert(b@.skip(0) == b@);
    while i < m && i < n && a.get_char(i) == b.get_char(i)
        invariant
            i <= m,
            i <= n,
            m == a@.len(),
            n == b@.len(),
            before(a@, b@) == before(a@.skip(i as int), b@.skip(i as int)),
        decreases m - i,
    {
        assert(a@.skip(i as int).skip(1) == a@.skip(i + 1));
        assert(b@.skip(i as int).skip(1) == b@.skip(i + 1));
        i = i + 1;
    }
    if i == n {
        false
    } else if i == m {
        true
    } else {
        a.get_char(i) < b.get_char(i)
    }
}

proof fn lemma_insert(list: Seq<Seq<char>>, at: int, name: Seq<char>)
    requires
        ascending(list),
        0 <= at <= list.len(),
        forall|k: int| 0 <= k < at ==> before(#[trigger] list[k], name),
        at < list.len() ==> before(name, list[at]),
    ensures
        ascending(list.insert(at, name)),
        forall|x: Seq<char>|
            list.insert(at, name).contains(x) <==> (list.contains(x) || x == name),
{
    let longer = list.insert(at, name);
    assert forall|i: int, j: int| 0 <= i < j < longer.len() implies before(
        #[trigger] longer[i],
        #[trigger] longer[j],
    ) by {
        let p = if i < at {
            i
        } else {
            i - 1
        };
        let q = if j < at {
            j
        } else {
            j - 1
        };
        if i == at {
            if q > at {
                assert(before(list[at], list[q]));
                before_is_transitive(name, list[at], list[q]);
            }
        } else if j == at {
        } else {
            assert(before(list[p], list[q]));
        }
    }
    assert forall|x: Seq<char>| longer.contains(x) <==> (list.contains(x) || x == name) by {
        if longer.contains(x) {
            let k = choose|k: int| 0 <= k < longer.len() && longer[k] == x;
            if k < at {
                assert(list[k] == x);
            } else if k > at {
                assert(list[k - 1] == x);
            }
        }
        if list.contains(x) {
            let k = choose|k: int| 0 <= k < list.len() && list[k] == x;
            if k < at {
                assert(longer[k] == x);
            } else {
                assert(longer[k + 1] == x);
            }
        }
        if x == name {
            assert(longer[at] == x);
        }
    }
}

/// The texts of a list, in order and each once.
pub open spec fn name_set(list: Seq<Seq<char>>) -> Seq<Seq<char>> {
    choose|sorted: Seq<Seq<char>>| #[trigger] is_name_set(sorted, list)
}

/// Whether `sorted` holds the texts of a list, in order and each once.
pub open spec fn is_name_set(sorted: Seq<Seq<char>>, list: Seq<Seq<char>>) -> bool {
    ascending(sorted) && same_elements(sorted, list)
}

/// Neither the order of a list nor how often a name occurs in it matters to its set of names.
pub proof fn name_set_ignores_order(
    a: Seq<Seq<char>>,
    b: Seq<Seq<char>>,
    sorted_a: Seq<Seq<char>>,
    sorted_b: Seq<Seq<char>>,
)
    requires
        same_elements(a, b),
        is_name_set(sorted_a, a),
        is_name_set(sorted_b, b),
    ensures
        sorted_a == sorted_b,
        name_set(a) == sorted_a,
        name_set(b) == sorted_a,
{
    assert forall|x: Seq<char>| sorted_a.contains(x) <==> sorted_b.contains(x) by {
        assert(sorted_a.contains(x) <==> a.contains(x));
        assert(sorted_b.contains(x) <==> b.contains(x));
        assert(a.contains(x) <==> b.contains(x));
    }
    ascending_is_unique(sorted_a, sorted_b);
    lemma_name_set(sorted_a, a);
    lemma_name_set(sorted_b, b);
}

proof fn lemma_name_set(sorted: Seq<Seq<char>>, list: Seq<Seq<char>>)
    requires
        is_name_set(sorted, list),
    ensures
        name_set(list) == sorted,
{
    let other = name_set(list);
    assert(is_name_set(other, list));
    assert forall|x: Seq<char>| sorted.contains(x) <==> other.contains(x) by {
        assert(sorted.contains(x) <==> list.contains(x));
        assert(other.contains(x) <==> list.contains(x));
    }
    ascending_is_unique(sorted, other);
}

/// The names of a list, in order and each once.
pub fn sorted_names(list: &Vec<PackageName>) -> (r: Vec<PackageName>)
    ensures
        is_name_set(name_texts(r@), name_texts(list@)),
        name_texts(r@) == name_set(name_texts(list@)),
{
    let mut sorted: Vec<PackageName> = Vec::new();
    let mut i: usize = 0;
    while i < list.len()
        invariant
            i <= list.len(),
            ascending(name_texts(sorted@)),
            same_elements(name_texts(sorted@), name_texts(list@).take(i as int)),
        decreases list.len() - i,
    {
        let ghost old_texts = name_texts(sorted@);
        let ghost name = list@[i as int]@;
        let mut at: usize = 0;
        while at < sorted.len() && is_before(sorted[at].as_str(), list[i].as_str())
            invariant
                i < list.len(),
                name == list@[i as int]@,
                at <= sorted.len(),
                old_texts == name_texts(sorted@),
                forall|k: int| 0 <= k < at ==> before(#[trigger] old_texts[k], name),
            decreases sorted.len() - at,
        {
            at = at + 1;
        }
        if at == sorted.len() || !sorted[at].same_as(&list[i]) {
            proof {
                if at < sorted.len() {
                    before_is_total(old_texts[at as int], name);
                }
                lemma_insert(old_texts, at as int, name);
            }
            sorted.insert(at, list[i].clone());
            assert(name_texts(sorted@) == old_texts.insert(at as int, name));
        } else {
            assert(old_texts[at as int] == name);
            assert(old_texts.contains(name));
        }
        assert(forall|x: Seq<char>|
            #![trigger name_texts(sorted@).contains(x)]
            name_texts(sorted@).contains(x) <==> (old_texts.contains(x) || x == name));
        proof {
            let longer = name_texts(list@).take(i + 1);
            assert(longer == name_texts(list@).take(i as int).push(name));
            assert forall|x: Seq<char>| longer.contains(x) <==> (name_texts(list@).take(
                i as int,
            ).contains(x) || x == name) by {
                let shorter = name_texts(list@).take(i as int);
                if shorter.contains(x) {
                    let k = choose|k: int| 0 <= k < shorter.len() && shorter[k] == x;
                    assert(longer[k] == x);
                }
                if x == name {
                    assert(longer[i as int] == x);
                }
                if longer.contains(x) {
                    let k = choose|k: int| 0 <= k < longer.len() && longer[k] == x;
                    if k < i {
                        assert(shorter[k] == x);
                    }
                }
            }
            assert forall|x: Seq<char>| name_texts(sorted@).contains(x) <==> longer.contains(
                x,
            ) by {
                assert(old_texts.contains(x) <==> name_texts(list@).take(i as int).contains(x));
            }
        }
        i = i + 1;
    }
    assert(name_texts(list@).take(list.len() as int) == name_texts(list@));
    proof {
        lemma_name_set(name_texts(sorted@), name_texts(list@));
    }
    sorted
}

} // verus!
