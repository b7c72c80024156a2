use vstd::prelude::*;

verus! {

broadcast use vstd::seq_lib::group_seq_properties;

/// The sequences `[a, b, c]` for each `c` of `s`, in order.
pub open spec fn triples<T>(s: Seq<T>, a: T, b: T, k: int) -> Seq<Seq<T>> {
    s.take(k).map_values(|c: T| seq![a, b, c])
}

/// `[a, b]`, then the triples that extend it.
pub open spec fn pair_block<T>(s: Seq<T>, a: T, b: T) -> Seq<Seq<T>> {
    seq![seq![a, b]] + triples(s, a, b, s.len() as int)
}

/// `[a]`, then the pair blocks of `a` with the first `k` elements of `s`.
pub open spec fn single_block<T>(s: Seq<T>, a: T, k: int) -> Seq<Seq<T>> {
    seq![seq![a]] + s.take(k).map_values(|b: T| pair_block(s, a, b)).flatten()
}

/// The combinations of one, two and three elements of `s` that start with one of its first
/// `k` elements: for each `a`, `[a]`, then for each `b`, `[a, b]` and the `[a, b, c]`.
pub open spec fn combination_seq<T>(s: Seq<T>, k: int) -> Seq<Seq<T>> {
    s.take(k).map_values(|a: T| single_block(s, a, s.len() as int)).flatten()
}

/// `out` holds clones of the elements of `spec`, sequence by sequence.
pub open spec fn clones_of<T: Clone>(out: Seq<Vec<T>>, spec: Seq<Seq<T>>) -> bool {
    &&& out.len() == spec.len()
    &&& forall|i: int|
        0 <= i < spec.len() ==> (#[trigger] out[i])@.len() == spec[i].len() && forall|j: int|
            0 <= j < spec[i].len() ==> cloned(spec[i][j], out[i]@[j])
}

proof fn lemma_clones_push<T: Clone>(out: Seq<Vec<T>>, spec: Seq<Seq<T>>, v: Vec<T>, s: Seq<T>)
    requires
        clones_of(out, spec),
        v@.len() == s.len(),
        forall|j: int| 0 <= j < s.len() ==> cloned(s[j], v@[j]),
    ensures
        clones_of(out.push(v), spec.push(s)),
{
    assert forall|i: int| 0 <= i < spec.push(s).len() implies (#[trigger] out.push(v)[i])@.len()
        == spec.push(s)[i].len() && forall|j: int|
        0 <= j < spec.push(s)[i].len() ==> cloned(spec.push(s)[i][j], out.push(v)[i]@[j]) by {
        if i < spec.len() {
            assert(out.push(v)[i] == out[i]);
            assert(spec.push(s)[i] == spec[i]);
        }
    }
}

/// All combinations of one, two and three elements of `vec` (with repetition), in the order
/// of the nested loops: for each `a`, `[a]`, then for each `b`, `[a, b]` followed by each
/// `[a, b, c]`. The elements are clones of those of `vec`.
pub fn combinations<T: Clone>(vec: Vec<T>) -> (output: Vec<Vec<T>>)
    ensures
        clones_of(output@, combination_seq(vec@, vec@.len() as int)),
{
    let ghost s = vec@;
    let n = vec.len();
    let mut output: Vec<Vec<T>> = Vec::new();
    let mut i: usize = 0;
    assert(s.take(0).map_values(|a: T| single_block(s, a, s.len() as int)) =~= Seq::<Seq<Seq<T>>>::empty());
    while i < n
        invariant
            n == s.len(),
            s == vec@,
            i <= n,
            clones_of(output@, combination_seq(s, i as int)),
        decreases n - i,
    {
        let ghost a = s[i as int];
        let ghost base = combination_seq(s, i as int);
        let x = vec[i].clone();
        let first = vec![x];
        proof { lemma_clones_push(output@, base, first, seq![a]); }
        output.push(first);
        let mut j: usize = 0;
        assert(s.take(0).map_values(|b: T| pair_block(s, a, b)) =~= Seq::<Seq<Seq<T>>>::empty());
        assert(base.push(seq![a]) =~= base + single_block(s, a, 0));
        while j < n
            invariant
                n == s.len(),
                s == vec@,
                i < n,
                a == s[i as int],
                j <= n,
                clones_of(output@, base + single_block(s, a, j as int)),
            decreases n - j,
        {
            let ghost b = s[j as int];
            let ghost mid = base + single_block(s, a, j as int);
            let x1 = vec[i].clone();
            let y1 = vec[j].clone();
            let pair = vec![x1, y1];
            proof { lemma_clones_push(output@, mid, pair, seq![a, b]); }
            output.push(pair);
            let mut k: usize = 0;
            assert(triples(s, a, b, 0) =~= Seq::<Seq<T>>::empty());
            assert(mid.push(seq![a, b]) =~= mid + seq![seq![a, b]] + triples(s, a, b, 0));
            while k < n
                invariant
                    n == s.len(),
                    s == vec@,
                    i < n,
                    j < n,
                    a == s[i as int],
                    b == s[j as int],
                    k <= n,
                    clones_of(output@, mid + seq![seq![a, b]] + triples(s, a, b, k as int)),
                decreases n - k,
            {
                let ghost c = s[k as int];
                let x2 = vec[i].clone();
                let y2 = vec[j].clone();
                let z2 = vec[k].clone();
                let triple = vec![x2, y2, z2];
                proof {
                    lemma_clones_push(output@, mid + seq![seq![a, b]] + triples(s, a, b, k as int), triple, seq![a, b, c]);
                    assert(triples(s, a, b, k as int + 1) =~= triples(s, a, b, k as int).push(seq![a, b, c]));
                    assert((mid + seq![seq![a, b]] + triples(s, a, b, k as int)).push(seq![a, b, c]) =~= mid + seq![
                        seq![a, b],
                    ] + triples(s, a, b, k as int + 1));
                }
                output.push(triple);
                k = k + 1;
            }
            proof {
                let f = |b: T| pair_block(s, a, b);
                assert(s.take(j as int + 1).map_values(f) =~= s.take(j as int).map_values(f).push(f(b)));
                s.take(j as int).map_values(f).lemma_flatten_push(f(b));
                assert(triples(s, a, b, n as int) =~= triples(s, a, b, s.len() as int));
                assert(mid + seq![seq![a, b]] + triples(s, a, b, n as int) =~= base + single_block(s, a, j as int + 1));
            }
            j = j + 1;
        }
        proof {
            let g = |a: T| single_block(s, a, s.len() as int);
            assert(s.take(i as int + 1).map_values(g) =~= s.take(i as int).map_values(g).push(g(a)));
            s.take(i as int).map_values(g).lemma_flatten_push(g(a));
            assert(base + single_block(s, a, n as int) =~= combination_seq(s, i as int + 1));
        }
        i = i + 1;
    }
    output
}

} // verus!
