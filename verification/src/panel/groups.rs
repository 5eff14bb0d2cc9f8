//! Grouping of string labels (entity, time or cluster identifiers).
//!
//! Only the identity of a label matters, so every specification here is stated
//! over the character sequences of the labels (`labels`). Two labels are in the
//! same group exactly when their characters are equal.
use vstd::prelude::*;

verus! {

/// The character sequences of a column of string labels.
pub open spec fn labels(ids: Seq<String>) -> Seq<Seq<char>> {
    ids.map_values(|s: String| s@)
}

/// Number of positions of `s` that hold `x`.
pub open spec fn occ<A>(s: Seq<A>, x: A) -> nat
    decreases s.len(),
{
    if s.len() == 0 {
        0
    } else {
        occ(s.drop_last(), x) + if s.last() == x {
            1nat
        } else {
            0nat
        }
    }
}

/// Number of distinct values in `s`.
pub open spec fn distinct_count<A>(s: Seq<A>) -> nat {
    s.to_set().len()
}

pub proof fn lemma_occ_le_len<A>(s: Seq<A>, x: A)
    ensures
        occ(s, x) <= s.len(),
    decreases s.len(),
{
    if s.len() > 0 {
        lemma_occ_le_len(s.drop_last(), x);
    }
}

pub proof fn lemma_occ_take_step<A>(s: Seq<A>, i: int, x: A)
    requires
        0 <= i < s.len(),
    ensures
        occ(s.take(i + 1), x) == occ(s.take(i), x) + if s[i] == x {
            1nat
        } else {
            0nat
        },
{
    assert(s.take(i + 1).drop_last() =~= s.take(i));
}

/// A value that occurs nowhere is counted zero times.
pub proof fn lemma_occ_absent<A>(s: Seq<A>, x: A)
    requires
        forall|j: int| 0 <= j < s.len() ==> s[j] != x,
    ensures
        occ(s, x) == 0,
    decreases s.len(),
{
    if s.len() > 0 {
        lemma_occ_absent(s.drop_last(), x);
    }
}

/// A value at some position is counted at least once.
pub proof fn lemma_occ_present<A>(s: Seq<A>, j: int)
    requires
        0 <= j < s.len(),
    ensures
        occ(s, s[j]) >= 1,
    decreases s.len(),
{
    if j < s.len() - 1 {
        lemma_occ_present(s.drop_last(), j);
    }
}

/// Exactly one occurrence at `j` means no other position holds the same value.
pub proof fn lemma_occ_one_unique<A>(s: Seq<A>, j: int, k: int)
    requires
        0 <= j < s.len(),
        0 <= k < s.len(),
        j != k,
        s[j] == s[k],
    ensures
        occ(s, s[j]) >= 2,
    decreases s.len(),
{
    let last = s.len() - 1;
    if j == last {
        lemma_occ_present(s.drop_last(), k);
    } else if k == last {
        lemma_occ_present(s.drop_last(), j);
    } else {
        lemma_occ_one_unique(s.drop_last(), j, k);
    }
}

/// The distinct labels of a column, how often each occurs, and which of them each
/// position holds.
pub struct LabelIndex {
    /// Distinct labels, in order of first appearance.
    pub keys: Vec<String>,
    /// `counts[g]` is the number of positions holding `keys[g]`.
    pub counts: Vec<usize>,
    /// `group_of[i]` is the position in `keys` of the label at position `i`.
    pub group_of: Vec<usize>,
}

impl LabelIndex {
    /// `self` indexes the label column `v`.
    pub open spec fn indexes(&self, v: Seq<Seq<char>>) -> bool {
        &&& labels(self.keys@).no_duplicates()
        &&& self.counts.len() == self.keys.len()
        &&& self.group_of.len() == v.len()
        &&& forall|g: int|
            0 <= g < self.keys.len() ==> #[trigger] self.counts@[g] == occ(v, self.keys@[g]@)
        &&& forall|g: int| 0 <= g < self.keys.len() ==> v.contains(#[trigger] self.keys@[g]@)
        &&& forall|i: int|
            0 <= i < v.len() ==> {
                &&& #[trigger] self.group_of@[i] < self.keys.len()
                &&& self.keys@[self.group_of@[i] as int]@ == v[i]
            }
    }
}

/// Position in `keys` of a label equal to `id`, if there is one.
pub fn find_label(keys: &Vec<String>, id: &String) -> (r: Option<usize>)
    ensures
        match r {
            Some(g) => g < keys.len() && keys@[g as int]@ == id@,
            None => forall|g: int| 0 <= g < keys.len() ==> keys@[g]@ != id@,
        },
{
    let mut g: usize = 0;
    while g < keys.len()
        invariant
            g <= keys.len(),
            forall|h: int| 0 <= h < g ==> keys@[h]@ != id@,
        decreases keys.len() - g,
    {
        if keys[g].eq(id) {
            return Some(g);
        }
        g += 1;
    }
    None
}

/// Builds the `LabelIndex` of a column of labels in one pass.
pub fn index_labels(ids: &[String]) -> (t: LabelIndex)
    ensures
        t.indexes(labels(ids@)),
{
    let ghost v = labels(ids@);
    let mut t = LabelIndex { keys: Vec::new(), counts: Vec::new(), group_of: Vec::new() };
    let mut i: usize = 0;
    while i < ids.len()
        invariant
            i <= ids.len(),
            v == labels(ids@),
            t.indexes(v.take(i as int)),
        decreases ids.len() - i,
    {
        let ghost pre = t;
        let ghost x = v[i as int];
        assert(ids@[i as int]@ == x);
        proof {
            assert forall|h: int| 0 <= h < t.keys.len() implies occ(
                v.take(i + 1),
                #[trigger] t.keys@[h]@,
            ) == occ(v.take(i as int), t.keys@[h]@) + if v[i as int] == t.keys@[h]@ {
                1nat
            } else {
                0nat
            } by {
                lemma_occ_take_step(v, i as int, t.keys@[h]@);
            }
        }
        match find_label(&t.keys, &ids[i]) {
            Some(g) => {
                let c = t.counts[g];
                proof {
                    lemma_occ_le_len(v.take(i as int), x);
                }
                t.counts.set(g, c + 1);
                t.group_of.push(g);
                proof {
                    assert forall|h: int| 0 <= h < t.keys.len() && h != g implies t.keys@[h]@
                        != x by {
                        assert(labels(t.keys@)[h] == t.keys@[h]@);
                        assert(labels(t.keys@)[g as int] == t.keys@[g as int]@);
                    }
                    assert forall|h: int| 0 <= h < t.keys.len() implies #[trigger] t.counts@[h]
                        == occ(v.take(i + 1), t.keys@[h]@) by {
                        lemma_occ_take_step(v, i as int, t.keys@[h]@);
                    }
                    assert forall|h: int| 0 <= h < t.keys.len() implies v.take(i + 1).contains(
                        #[trigger] t.keys@[h]@,
                    ) by {
                        let j = choose|j: int|
                            0 <= j < i && v.take(i as int)[j] == pre.keys@[h]@;
                        assert(v.take(i + 1)[j] == pre.keys@[h]@);
                    }
                    assert forall|j: int| 0 <= j < i + 1 implies {
                        &&& #[trigger] t.group_of@[j] < t.keys.len()
                        &&& t.keys@[t.group_of@[j] as int]@ == v.take(i + 1)[j]
                    } by {
                        if j < i {
                            assert(v.take(i as int)[j] == v.take(i + 1)[j]);
                        }
                    }
                }
            },
            None => {
                proof {
                    assert forall|j: int| 0 <= j < i implies v.take(i as int)[j] != x by {
                        let g = pre.group_of@[j];
                        assert(pre.keys@[g as int]@ == v.take(i as int)[j]);
                    }
                    lemma_occ_absent(v.take(i as int), x);
                }
                let k = ids[i].clone();
                t.keys.push(k);
                t.counts.push(1);
                t.group_of.push(t.keys.len() - 1);
                proof {
                    let lk = labels(t.keys@);
                    assert(lk =~= labels(pre.keys@).push(x));
                    assert forall|a: int, b: int|
                        0 <= a < lk.len() && 0 <= b < lk.len() && a != b implies lk[a]
                        != lk[b] by {
                        if a < pre.keys.len() && b < pre.keys.len() {
                            assert(labels(pre.keys@)[a] == lk[a]);
                            assert(labels(pre.keys@)[b] == lk[b]);
                        }
                    }
                    assert forall|h: int| 0 <= h < t.keys.len() implies #[trigger] t.counts@[h]
                        == occ(v.take(i + 1), t.keys@[h]@) by {
                        lemma_occ_take_step(v, i as int, t.keys@[h]@);
                    }
                    assert forall|h: int| 0 <= h < t.keys.len() implies v.take(i + 1).contains(
                        #[trigger] t.keys@[h]@,
                    ) by {
                        if h < pre.keys.len() {
                            let j = choose|j: int|
                                0 <= j < i && v.take(i as int)[j] == pre.keys@[h]@;
                            assert(v.take(i + 1)[j] == pre.keys@[h]@);
                        } else {
                            assert(v.take(i + 1)[i as int] == x);
                        }
                    }
                    assert forall|j: int| 0 <= j < i + 1 implies {
                        &&& #[trigger] t.group_of@[j] < t.keys.len()
                        &&& t.keys@[t.group_of@[j] as int]@ == v.take(i + 1)[j]
                    } by {
                        if j < i {
                            assert(v.take(i as int)[j] == v.take(i + 1)[j]);
                        }
                    }
                }
            },
        }
        i += 1;
    }
    assert(v.take(ids.len() as int) =~= v);
    t
}

/// Lexicographic order of labels by character code points (the order of Rust's string
/// comparison, since UTF-8 preserves the order of code points).
pub open spec fn lex_lt(a: Seq<char>, b: Seq<char>) -> bool
    decreases a.len(),
{
    if a.len() == 0 {
        b.len() > 0
    } else if b.len() == 0 {
        false
    } else if a[0] != b[0] {
        (a[0] as int) < (b[0] as int)
    } else {
        lex_lt(a.drop_first(), b.drop_first())
    }
}

/// No label precedes itself.
pub proof fn lemma_lex_irreflexive(a: Seq<char>)
    ensures
        !lex_lt(a, a),
    decreases a.len(),
{
    if a.len() > 0 {
        lemma_lex_irreflexive(a.drop_first());
    }
}

/// Distinct labels are ordered one way or the other.
pub proof fn lemma_lex_total(a: Seq<char>, b: Seq<char>)
    requires
        a != b,
    ensures
        lex_lt(a, b) || lex_lt(b, a),
    decreases a.len(),
{
    if a.len() == 0 {
        if b.len() == 0 {
            assert(a =~= b);
        }
    } else if b.len() == 0 {
    } else if a[0] != b[0] {
    } else {
        if a.drop_first() == b.drop_first() {
            assert(a =~= seq![a[0]] + a.drop_first());
            assert(b =~= seq![b[0]] + b.drop_first());
        }
        lemma_lex_total(a.drop_first(), b.drop_first());
    }
}

/// The order is transitive.
pub proof fn lemma_lex_transitive(a: Seq<char>, b: Seq<char>, c: Seq<char>)
    requires
        lex_lt(a, b),
        lex_lt(b, c),
    ensures
        lex_lt(a, c),
    decreases a.len(),
{
    if a.len() > 0 && b.len() > 0 && c.len() > 0 && a[0] == b[0] && b[0] == c[0] {
        lemma_lex_transitive(a.drop_first(), b.drop_first(), c.drop_first());
    }
}

/// Decides `lex_lt` on two labels.
pub fn label_lt(a: &String, b: &String) -> (r: bool)
    ensures
        r == lex_lt(a@, b@),
{
    let sa = a.as_str();
    let sb = b.as_str();
    let la = sa.unicode_len();
    let lb = sb.unicode_len();
    let mut i: usize = 0;
    assert(a@.skip(0) =~= a@);
    assert(b@.skip(0) =~= b@);
    while i < la && i < lb
        invariant
            sa@ == a@,
            sb@ == b@,
            la == a@.len(),
            lb == b@.len(),
            i <= la,
            i <= lb,
            lex_lt(a@, b@) == lex_lt(a@.skip(i as int), b@.skip(i as int)),
        decreases la - i,
    {
        let ca = sa.get_char(i);
        let cb = sb.get_char(i);
        assert(a@.skip(i as int)[0] == ca);
        assert(b@.skip(i as int)[0] == cb);
        if ca != cb {
            return (ca as u32) < (cb as u32);
        }
        assert(a@.skip(i as int).drop_first() =~= a@.skip(i + 1));
        assert(b@.skip(i as int).drop_first() =~= b@.skip(i + 1));
        i += 1;
    }
    la < lb
}

/// The observations of a label column grouped by label, with the labels in increasing
/// lexicographic order.
pub struct KeyGroups {
    /// The distinct labels, strictly increasing.
    pub keys: Vec<String>,
    /// `indices[g]`: the positions holding `keys[g]`, increasing.
    pub indices: Vec<Vec<usize>>,
}

/// The positions in `s` strictly increase.
pub open spec fn strictly_increasing(s: Seq<usize>) -> bool {
    forall|p: int, q: int| 0 <= p < q < s.len() ==> s[p] < s[q]
}

/// The labels in `s` strictly increase in `lex_lt`.
pub open spec fn strictly_sorted(s: Seq<String>) -> bool {
    forall|g: int, h: int| 0 <= g < h < s.len() ==> lex_lt(#[trigger] s[g]@, #[trigger] s[h]@)
}

impl KeyGroups {
    /// Group `g` is a non-empty, increasing list of positions below `n`, each holding
    /// the label `keys[g]`.
    pub open spec fn group_ok(&self, v: Seq<Seq<char>>, g: int, n: int) -> bool {
        let l = self.indices@[g]@;
        &&& l.len() > 0
        &&& strictly_increasing(l)
        &&& forall|p: int| 0 <= p < l.len() ==> #[trigger] l[p] < n && v[l[p] as int] == self.keys@[g]@
    }

    /// Group `g` has the label of position `i` and lists `i`.
    pub open spec fn holds_at(&self, v: Seq<Seq<char>>, g: int, i: int) -> bool {
        &&& 0 <= g < self.keys.len()
        &&& self.keys@[g]@ == v[i]
        &&& self.indices@[g]@.contains(i as usize)
    }

    /// `self` groups the first `n` positions of the label column `v`.
    pub open spec fn groups_prefix(&self, v: Seq<Seq<char>>, n: int) -> bool {
        &&& self.indices.len() == self.keys.len()
        &&& strictly_sorted(self.keys@)
        &&& forall|g: int| 0 <= g < self.keys.len() ==> #[trigger] self.group_ok(v, g, n)
        &&& forall|i: int| 0 <= i < n ==> #[trigger] self.covers(v, i)
    }

    /// Some group has the label of position `i` and lists `i`.
    pub open spec fn covers(&self, v: Seq<Seq<char>>, i: int) -> bool {
        exists|g: int| #[trigger] self.holds_at(v, g, i)
    }

    /// `self` groups the whole label column `v`.
    pub open spec fn groups(&self, v: Seq<Seq<char>>) -> bool {
        self.groups_prefix(v, v.len() as int)
    }
}

/// Appending position `i` to the group of its (already present) label `keys[j]`
/// extends a grouping of the first `i` positions to the first `i + 1`.
proof fn lemma_extend_existing(pre: KeyGroups, r: KeyGroups, v: Seq<Seq<char>>, i: int, j: int)
    requires
        0 <= i < v.len(),
        i <= usize::MAX,
        pre.groups_prefix(v, i),
        0 <= j < pre.keys.len(),
        pre.keys@[j]@ == v[i],
        r.keys@ == pre.keys@,
        r.indices.len() == pre.indices.len(),
        r.indices@[j]@ == pre.indices@[j]@.push(i as usize),
        forall|g: int| 0 <= g < r.indices.len() && g != j ==> r.indices@[g]@ == pre.indices@[g]@,
    ensures
        r.groups_prefix(v, i + 1),
{
    assert forall|g: int| 0 <= g < r.keys.len() implies #[trigger] r.group_ok(v, g, i + 1) by {
        assert(pre.group_ok(v, g, i));
        let l = pre.indices@[g]@;
        if g == j {
            let m = r.indices@[g]@;
            assert forall|p: int, q: int| 0 <= p < q < m.len() implies m[p] < m[q] by {
                assert(l[p] < i);
                if q < l.len() {
                    assert(l[p] < l[q]);
                }
            }
            assert forall|p: int| 0 <= p < m.len() implies #[trigger] m[p] < i + 1 && v[m[p] as int]
                == r.keys@[g]@ by {
                if p < l.len() {
                    assert(m[p] == l[p]);
                    assert(l[p] < i);
                }
            }
        } else {
            assert(r.indices@[g]@ == l);
        }
    }
    assert forall|k: int| 0 <= k < i + 1 implies #[trigger] r.covers(v, k) by {
        if k == i {
            assert(r.indices@[j]@.last() == i as usize);
            assert(r.holds_at(v, j, k));
        } else {
            assert(pre.covers(v, k));
            let g = choose|g: int| #[trigger] pre.holds_at(v, g, k);
            let l = pre.indices@[g]@;
            let p = choose|p: int| 0 <= p < l.len() && #[trigger] l[p] == k as usize;
            assert(r.indices@[g]@[p] == k as usize);
            assert(r.holds_at(v, g, k));
        }
    }
}

/// Inserting the new label of position `i` at its place `j` in the sorted keys, with
/// the one-element group `[i]`, extends a grouping of the first `i` positions to the
/// first `i + 1`.
proof fn lemma_extend_new(
    pre: KeyGroups,
    r: KeyGroups,
    v: Seq<Seq<char>>,
    i: int,
    j: int,
    k: String,
    list: Vec<usize>,
)
    requires
        0 <= i < v.len(),
        i <= usize::MAX,
        pre.groups_prefix(v, i),
        0 <= j <= pre.keys.len(),
        k@ == v[i],
        forall|h: int| 0 <= h < j ==> lex_lt(#[trigger] pre.keys@[h]@, v[i]),
        j < pre.keys.len() ==> lex_lt(v[i], pre.keys@[j]@),
        list@ == seq![i as usize],
        r.keys@ == pre.keys@.insert(j, k),
        r.indices@ == pre.indices@.insert(j, list),
    ensures
        r.groups_prefix(v, i + 1),
{
    assert forall|g: int, h: int| 0 <= g < h < r.keys.len() implies lex_lt(
        #[trigger] r.keys@[g]@,
        #[trigger] r.keys@[h]@,
    ) by {
        if h == j {
            assert(r.keys@[g] == pre.keys@[g]);
        } else if g == j {
            assert(r.keys@[h] == pre.keys@[h - 1]);
            if h - 1 > j {
                assert(lex_lt(pre.keys@[j]@, pre.keys@[h - 1]@));
                lemma_lex_transitive(v[i], pre.keys@[j]@, pre.keys@[h - 1]@);
            }
        } else if g < j && h > j {
            assert(r.keys@[g] == pre.keys@[g]);
            assert(r.keys@[h] == pre.keys@[h - 1]);
            assert(lex_lt(pre.keys@[g]@, pre.keys@[h - 1]@));
        } else if g > j {
            assert(r.keys@[g] == pre.keys@[g - 1]);
            assert(r.keys@[h] == pre.keys@[h - 1]);
            assert(lex_lt(pre.keys@[g - 1]@, pre.keys@[h - 1]@));
        } else {
            assert(r.keys@[g] == pre.keys@[g]);
            assert(r.keys@[h] == pre.keys@[h]);
            assert(lex_lt(pre.keys@[g]@, pre.keys@[h]@));
        }
    }
    assert forall|g: int| 0 <= g < r.keys.len() implies #[trigger] r.group_ok(v, g, i + 1) by {
        if g < j {
            assert(pre.group_ok(v, g, i));
            assert(r.indices@[g] == pre.indices@[g]);
            assert(r.keys@[g] == pre.keys@[g]);
        } else if g > j {
            assert(pre.group_ok(v, g - 1, i));
            assert(r.indices@[g] == pre.indices@[g - 1]);
            assert(r.keys@[g] == pre.keys@[g - 1]);
        } else {
            assert(r.indices@[g]@ == seq![i as usize]);
        }
    }
    assert forall|kk: int| 0 <= kk < i + 1 implies #[trigger] r.covers(v, kk) by {
        if kk == i {
            assert(r.indices@[j]@[0] == i as usize);
            assert(r.holds_at(v, j, kk));
        } else {
            assert(pre.covers(v, kk));
            let g = choose|g: int| #[trigger] pre.holds_at(v, g, kk);
            let l = pre.indices@[g]@;
            let p = choose|p: int| 0 <= p < l.len() && #[trigger] l[p] == kk as usize;
            if g < j {
                assert(r.indices@[g]@[p] == kk as usize);
                assert(r.holds_at(v, g, kk));
            } else {
                assert(r.indices@[g + 1]@[p] == kk as usize);
                assert(r.holds_at(v, g + 1, kk));
            }
        }
    }
}

/// Groups the positions of a label column by label, labels in increasing
/// lexicographic order and positions in increasing order within each group. The order
/// of the labels is the order in which group-wise sums are accumulated, and for time
/// labels it is taken as the chronological order.
pub fn group_indices_by_key(ids: &[String]) -> (r: KeyGroups)
    ensures
        r.groups(labels(ids@)),
{
    let ghost v = labels(ids@);
    let mut r = KeyGroups { keys: Vec::new(), indices: Vec::new() };
    let mut i: usize = 0;
    while i < ids.len()
        invariant
            i <= ids.len(),
            v == labels(ids@),
            r.groups_prefix(v, i as int),
        decreases ids.len() - i,
    {
        let ghost pre = r;
        let id = &ids[i];
        assert(id@ == v[i as int]);
        let mut j: usize = 0;
        while j < r.keys.len() && label_lt(&r.keys[j], id)
            invariant
                j <= r.keys.len(),
                r == pre,
                forall|h: int| 0 <= h < j ==> lex_lt(#[trigger] r.keys@[h]@, id@),
            decreases r.keys.len() - j,
        {
            j += 1;
        }
        if j < r.keys.len() && r.keys[j].eq(id) {
            let mut list = r.indices.remove(j);
            list.push(i);
            r.indices.insert(j, list);
            proof {
                assert forall|g: int| 0 <= g < r.indices.len() && g != j implies r.indices@[g]@
                    == pre.indices@[g]@ by {
                    if g < j {
                        assert(r.indices@[g] == pre.indices@[g]);
                    } else {
                        assert(r.indices@[g] == pre.indices@[g]);
                    }
                }
                lemma_extend_existing(pre, r, v, i as int, j as int);
            }
        } else {
            proof {
                if j < r.keys.len() {
                    lemma_lex_total(r.keys@[j as int]@, id@);
                }
            }
            let k = ids[i].clone();
            r.keys.insert(j, k);
            let mut list: Vec<usize> = Vec::new();
            list.push(i);
            r.indices.insert(j, list);
            proof {
                lemma_extend_new(pre, r, v, i as int, j as int, k, list);
            }
        }
        i += 1;
    }
    r
}

} // verus!
