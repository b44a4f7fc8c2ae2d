//! Card tags: trimmed, lower-cased, without empty entries, sorted and without repeats.
use vstd::prelude::*;
use crate::text::{chars_of, lowercase, to_lowercase, trim, trim_seq};

verus! {

/// Lexicographic order of texts by code point; this is the order of `String`
/// (UTF-8 preserves the order of code points).
pub open spec fn lex_lt(a: Seq<char>, b: Seq<char>) -> bool
    decreases a.len(),
{
    if a.len() == 0 {
        b.len() > 0
    } else if b.len() == 0 {
        false
    } else if a[0] < b[0] {
        true
    } else if a[0] == b[0] {
        lex_lt(a.drop_first(), b.drop_first())
    } else {
        false
    }
}

pub proof fn lemma_lex_irreflexive(a: Seq<char>)
    ensures
        !lex_lt(a, a),
    decreases a.len(),
{
    if a.len() > 0 {
        lemma_lex_irreflexive(a.drop_first());
    }
}

pub proof fn lemma_lex_transitive(a: Seq<char>, b: Seq<char>, c: Seq<char>)
    requires
        lex_lt(a, b),
        lex_lt(b, c),
    ensures
        lex_lt(a, c),
    decreases a.len(),
{
    if a.len() > 0 && b.len() > 0 && c.len() > 0 {
        if a[0] == b[0] && b[0] == c[0] {
            lemma_lex_transitive(a.drop_first(), b.drop_first(), c.drop_first());
        }
    }
}

pub proof fn lemma_lex_total(a: Seq<char>, b: Seq<char>)
    requires
        a != b,
    ensures
        lex_lt(a, b) || lex_lt(b, a),
    decreases a.len(),
{
    if a.len() > 0 && b.len() > 0 && a[0] == b[0] {
        if a.drop_first() == b.drop_first() {
            assert(a.len() == b.len()) by {
                assert(a.drop_first().len() == b.drop_first().len());
            }
            assert(a =~= b) by {
                assert forall|i: int| 0 <= i < a.len() implies a[i] == b[i] by {
                    if i > 0 {
                        assert(a[i] == a.drop_first()[i - 1]);
                        assert(b[i] == b.drop_first()[i - 1]);
                    }
                }
            }
        } else {
            lemma_lex_total(a.drop_first(), b.drop_first());
        }
    } else if a.len() == 0 && b.len() == 0 {
        assert(a =~= b);
    } else if a.len() > 0 && b.len() > 0 {
        assert(a[0] < b[0] || b[0] < a[0]);
    }
}

/// Whether `a` comes strictly before `b` in the order of texts.
pub fn lex_less(a: &Vec<char>, b: &Vec<char>) -> (r: bool)
    ensures
        r == lex_lt(a@, b@),
{
    let n = if a.len() < b.len() { a.len() } else { b.len() };
    let mut i: usize = 0;
    assert(a@.skip(0) =~= a@ && b@.skip(0) =~= b@);
    while i < n
        invariant
            0 <= i <= n,
            n <= a.len(),
            n <= b.len(),
            n == a.len() || n == b.len(),
            lex_lt(a@, b@) == lex_lt(a@.skip(i as int), b@.skip(i as int)),
        decreases n - i,
    {
        assert(a@.skip(i as int)[0] == a@[i as int]);
        assert(b@.skip(i as int)[0] == b@[i as int]);
        if a[i] != b[i] {
            return a[i] < b[i];
        }
        assert(a@.skip(i as int).drop_first() =~= a@.skip(i + 1));
        assert(b@.skip(i as int).drop_first() =~= b@.skip(i + 1));
        i = i + 1;
    }
    a.len() < b.len()
}

/// The views of a list of strings.
pub open spec fn views(v: Seq<String>) -> Seq<Seq<char>> {
    v.map_values(|s: String| s@)
}

/// Every text comes strictly before the next ones: sorted, without repeats.
pub open spec fn strictly_sorted(s: Seq<Seq<char>>) -> bool {
    forall|i: int, j: int| 0 <= i < j < s.len() ==> lex_lt(#[trigger] s[i], #[trigger] s[j])
}

/// A tag once normalised: trimmed, then lower-cased.
pub open spec fn normalized_tag(tag: Seq<char>) -> Seq<char> {
    lowercase(trim_seq(tag))
}

/// `x` is the normalised form of one of `tags`, and not empty.
pub open spec fn is_normalized_tag_of(tags: Seq<Seq<char>>, x: Seq<char>) -> bool {
    x.len() > 0 && exists|j: int| 0 <= j < tags.len() && normalized_tag(#[trigger] tags[j]) == x
}

/// `result` lists, sorted and once each, the non-empty normalised forms of `tags`.
pub open spec fn normalized_tags_of(tags: Seq<Seq<char>>, result: Seq<Seq<char>>) -> bool {
    &&& strictly_sorted(result)
    &&& forall|x: Seq<char>| result.contains(x) <==> is_normalized_tag_of(tags, x)
}

/// `result` lists, sorted and once each, the non-empty texts of `texts`.
pub open spec fn sorted_distinct_nonempty(texts: Seq<Seq<char>>, result: Seq<Seq<char>>) -> bool {
    &&& strictly_sorted(result)
    &&& forall|x: Seq<char>| result.contains(x) <==> (x.len() > 0 && texts.contains(x))
}

/// The last step of tag normalisation, on tags already trimmed and lower-cased:
/// empty ones are dropped, and the rest are sorted with repeats removed.
pub fn normalize_lowered_tags(lowered: Vec<String>) -> (r: Vec<String>)
    ensures
        sorted_distinct_nonempty(views(lowered@), views(r@)),
        r@.len() <= lowered@.len(),
{
    let mut out: Vec<String> = Vec::new();
    let mut keys: Vec<Vec<char>> = Vec::new();
    let ghost input = views(lowered@);
    let mut j: usize = 0;
    while j < lowered.len()
        invariant
            0 <= j <= lowered.len(),
            input == views(lowered@),
            keys.len() == out.len(),
            forall|i: int| 0 <= i < keys.len() ==> (#[trigger] keys@[i])@ == out@[i]@,
            strictly_sorted(views(out@)),
            forall|x: Seq<char>|
                views(out@).contains(x) <==> (x.len() > 0 && input.take(j as int).contains(x)),
        decreases lowered.len() - j,
    {
        let tag = lowered[j].clone();
        let key = chars_of(tag.as_str());
        let ghost old_out = views(out@);
        let ghost mut inserted: bool = false;
        proof {
            assert(input[j as int] == lowered@[j as int]@);
            assert(key@ == input[j as int]);
        }
        if key.len() > 0 {
            let mut p: usize = 0;
            while p < keys.len() && lex_less(&keys[p], &key)
                invariant
                    0 <= p <= keys.len(),
                    keys.len() == out.len(),
                    forall|i: int| 0 <= i < keys.len() ==> (#[trigger] keys@[i])@ == out@[i]@,
                    forall|i: int| 0 <= i < p ==> lex_lt(#[trigger] old_out[i], key@),
                    old_out == views(out@),
                decreases keys.len() - p,
            {
                p = p + 1;
            }
            let duplicate = p < keys.len() && !lex_less(&key, &keys[p]);
            if duplicate {
                proof {
                    if key@ != old_out[p as int] {
                        lemma_lex_total(key@, old_out[p as int]);
                    }
                    assert(old_out.contains(key@));
                }
            } else {
                proof {
                    assert forall|i: int| p <= i < old_out.len() implies lex_lt(
                        key@,
                        #[trigger] old_out[i],
                    ) by {
                        if key@ == old_out[p as int] {
                            lemma_lex_irreflexive(key@);
                        } else {
                            lemma_lex_total(key@, old_out[p as int]);
                        }
                        if i > p {
                            lemma_lex_transitive(key@, old_out[p as int], old_out[i]);
                        }
                    }
                }
                let ghost key_view = key@;
                keys.insert(p, key);
                out.insert(p, tag);
                proof {
                    inserted = true;
                    let nv = views(out@);
                    assert(nv =~= old_out.insert(p as int, key_view));
                    assert forall|a: int, b: int| 0 <= a < b < nv.len() implies lex_lt(
                        #[trigger] nv[a],
                        #[trigger] nv[b],
                    ) by {
                        if b < p {
                            assert(nv[a] == old_out[a] && nv[b] == old_out[b]);
                        } else if a < p && b == p {
                        } else if a < p && b > p {
                            assert(nv[b] == old_out[b - 1]);
                        } else if a == p {
                            assert(nv[b] == old_out[b - 1]);
                        } else {
                            assert(nv[a] == old_out[a - 1]);
                            assert(nv[b] == old_out[b - 1]);
                        }
                    }
                    assert forall|i: int| 0 <= i < keys.len() implies (#[trigger] keys@[i])@
                        == out@[i]@ by {
                        assert(nv[i] == out@[i]@);
                    }
                    assert forall|x: Seq<char>| nv.contains(x) <==> (old_out.contains(x) || x
                        == key_view) by {
                        if nv.contains(x) {
                            let q = choose|q: int| 0 <= q < nv.len() && nv[q] == x;
                            if q < p {
                                assert(old_out[q] == x);
                            } else if q > p {
                                assert(old_out[q - 1] == x);
                            }
                        }
                        if old_out.contains(x) {
                            let q = choose|q: int| 0 <= q < old_out.len() && old_out[q] == x;
                            if q < p {
                                assert(nv[q] == x);
                            } else {
                                assert(nv[q + 1] == x);
                            }
                        }
                        if x == key_view {
                            assert(nv[p as int] == x);
                        }
                    }
                }
            }
        }
        proof {
            let nv = views(out@);
            let key_view = input[j as int];
            if !inserted {
                assert(nv == old_out);
            }
            assert forall|x: Seq<char>| nv.contains(x) <==> (old_out.contains(x) || (x
                == key_view && x.len() > 0)) by {}
            assert(input.take(j + 1) =~= input.take(j as int).push(input[j as int]));
            assert forall|x: Seq<char>| input.take(j + 1).contains(x) <==> (input.take(
                j as int,
            ).contains(x) || x == key_view) by {
                if input.take(j + 1).contains(x) {
                    let w = choose|w: int| 0 <= w < j + 1 && #[trigger] input.take(j + 1)[w] == x;
                    if w < j {
                        assert(input.take(j as int)[w] == x);
                    }
                }
                if input.take(j as int).contains(x) {
                    let w = choose|w: int| 0 <= w < j && #[trigger] input.take(j as int)[w] == x;
                    assert(input.take(j + 1)[w] == x);
                }
                if x == key_view {
                    assert(input.take(j + 1)[j as int] == x);
                }
            }
            assert forall|x: Seq<char>| nv.contains(x) <==> (x.len() > 0 && input.take(j + 1).contains(
                x,
            )) by {
                if x.len() > 0 && input.take(j + 1).contains(x) && x != key_view {
                    assert(input.take(j as int).contains(x));
                    assert(old_out.contains(x));
                }
            }
        }
        j = j + 1;
    }
    proof {
        assert(input.take(lowered.len() as int) =~= input);
        lemma_sorted_within_not_longer(input, views(out@));
    }
    out
}

/// Normalises card tags: each is trimmed and lower-cased, empty ones are
/// dropped, and the rest are sorted with repeats removed.
pub fn normalize_tags(tags: Vec<String>) -> (r: Vec<String>)
    ensures
        normalized_tags_of(views(tags@), views(r@)),
        r@.len() <= tags@.len(),
{
    let ghost input = views(tags@);
    let mut lowered: Vec<String> = Vec::new();
    let mut j: usize = 0;
    while j < tags.len()
        invariant
            0 <= j <= tags.len(),
            input == views(tags@),
            lowered.len() == j,
            forall|i: int| 0 <= i < j ==> (#[trigger] lowered@[i])@ == normalized_tag(input[i]),
        decreases tags.len() - j,
    {
        let trimmed = trim(tags[j].as_str());
        proof {
            assert(input[j as int] == tags@[j as int]@);
        }
        lowered.push(to_lowercase(trimmed));
        j = j + 1;
    }
    let ghost forms = views(lowered@);
    let r = normalize_lowered_tags(lowered);
    proof {
        assert forall|x: Seq<char>| views(r@).contains(x) <==> is_normalized_tag_of(input, x) by {
            if x.len() > 0 && forms.contains(x) {
                let i = choose|i: int| 0 <= i < forms.len() && forms[i] == x;
                assert(normalized_tag(input[i]) == x);
            }
            if is_normalized_tag_of(input, x) {
                let i = choose|i: int| 0 <= i < input.len() && normalized_tag(#[trigger] input[i]) == x;
                assert(forms[i] == x);
            }
        }
    }
    r
}

/// Two sorted lists without repeats that hold the same texts are equal.
pub proof fn lemma_strictly_sorted_unique(a: Seq<Seq<char>>, b: Seq<Seq<char>>)
    requires
        strictly_sorted(a),
        strictly_sorted(b),
        forall|x: Seq<char>| a.contains(x) <==> b.contains(x),
    ensures
        a == b,
    decreases a.len(),
{
    if a.len() == 0 {
        if b.len() > 0 {
            assert(b.contains(b[0]));
        }
        assert(a =~= b);
    } else {
        assert(a.contains(a[0]));
        let j = choose|j: int| 0 <= j < b.len() && b[j] == a[0];
        assert(b.contains(b[0]));
        let i = choose|i: int| 0 <= i < a.len() && a[i] == b[0];
        if j > 0 {
            assert(lex_lt(b[0], b[j]));
            if i > 0 {
                assert(lex_lt(a[0], a[i]));
                lemma_lex_transitive(a[0], b[0], a[0]);
                lemma_lex_irreflexive(a[0]);
            } else {
                lemma_lex_irreflexive(a[0]);
            }
        }
        assert(b[0] == a[0]);
        let a1 = a.drop_first();
        let b1 = b.drop_first();
        assert forall|x: Seq<char>| a1.contains(x) <==> b1.contains(x) by {
            if a1.contains(x) {
                let p = choose|p: int| 0 <= p < a1.len() && a1[p] == x;
                assert(a[p + 1] == x);
                assert(a.contains(x));
                let q = choose|q: int| 0 <= q < b.len() && b[q] == x;
                if q == 0 {
                    assert(lex_lt(a[0], a[p + 1]));
                    lemma_lex_irreflexive(x);
                }
                assert(b1[q - 1] == x);
            }
            if b1.contains(x) {
                let p = choose|p: int| 0 <= p < b1.len() && b1[p] == x;
                assert(b[p + 1] == x);
                assert(b.contains(x));
                let q = choose|q: int| 0 <= q < a.len() && a[q] == x;
                if q == 0 {
                    assert(lex_lt(b[0], b[p + 1]));
                    lemma_lex_irreflexive(x);
                }
                assert(a1[q - 1] == x);
            }
        }
        assert(strictly_sorted(a1)) by {
            assert forall|p: int, q: int| 0 <= p < q < a1.len() implies lex_lt(
                #[trigger] a1[p],
                #[trigger] a1[q],
            ) by {
                assert(a1[p] == a[p + 1] && a1[q] == a[q + 1]);
            }
        }
        assert(strictly_sorted(b1)) by {
            assert forall|p: int, q: int| 0 <= p < q < b1.len() implies lex_lt(
                #[trigger] b1[p],
                #[trigger] b1[q],
            ) by {
                assert(b1[p] == b[p + 1] && b1[q] == b[q + 1]);
            }
        }
        lemma_strictly_sorted_unique(a1, b1);
        assert(a =~= b) by {
            assert forall|k: int| 0 <= k < a.len() implies a[k] == b[k] by {
                if k > 0 {
                    assert(a[k] == a1[k - 1] && b[k] == b1[k - 1]);
                }
            }
        }
    }
}

/// The normalised tags depend only on which tags were given: their order and
/// their repeats do not matter.
pub proof fn lemma_tag_order_and_repeats_do_not_matter(
    tags1: Seq<Seq<char>>,
    tags2: Seq<Seq<char>>,
    result1: Seq<Seq<char>>,
    result2: Seq<Seq<char>>,
)
    requires
        forall|t: Seq<char>| tags1.contains(t) <==> tags2.contains(t),
        normalized_tags_of(tags1, result1),
        normalized_tags_of(tags2, result2),
    ensures
        result1 == result2,
{
    assert forall|x: Seq<char>| result1.contains(x) <==> result2.contains(x) by {
        if is_normalized_tag_of(tags1, x) {
            let j = choose|j: int| 0 <= j < tags1.len() && normalized_tag(#[trigger] tags1[j]) == x;
            assert(tags1.contains(tags1[j]));
            let k = choose|k: int| 0 <= k < tags2.len() && tags2[k] == tags1[j];
            assert(normalized_tag(tags2[k]) == x);
        }
        if is_normalized_tag_of(tags2, x) {
            let j = choose|j: int| 0 <= j < tags2.len() && normalized_tag(#[trigger] tags2[j]) == x;
            assert(tags2.contains(tags2[j]));
            let k = choose|k: int| 0 <= k < tags1.len() && tags1[k] == tags2[j];
            assert(normalized_tag(tags1[k]) == x);
        }
    }
    lemma_strictly_sorted_unique(result1, result2);
}

/// A sorted list without repeats whose texts all occur in `texts` is no longer
/// than `texts`.
pub proof fn lemma_sorted_within_not_longer(texts: Seq<Seq<char>>, result: Seq<Seq<char>>)
    requires
        strictly_sorted(result),
        forall|x: Seq<char>| result.contains(x) ==> texts.contains(x),
    ensures
        result.len() <= texts.len(),
{
    assert(result.no_duplicates()) by {
        assert forall|i: int, j: int| 0 <= i < result.len() && 0 <= j < result.len() && i != j
            implies result[i] != result[j] by {
            if i < j {
                assert(lex_lt(result[i], result[j]));
            } else {
                assert(lex_lt(result[j], result[i]));
            }
            lemma_lex_irreflexive(result[i]);
        }
    }
    result.unique_seq_to_set();
    assert(result.to_set().subset_of(texts.to_set())) by {
        assert forall|x: Seq<char>| result.to_set().contains(x) implies texts.to_set().contains(
            x,
        ) by {
            assert(result.contains(x));
        }
    }
    vstd::seq_lib::seq_to_set_is_finite(texts);
    vstd::set_lib::lemma_len_subset(result.to_set(), texts.to_set());
    texts.lemma_cardinality_of_set();
}

/// Normalising never lengthens the list of tags: each kept tag is the normalised
/// form of a different given tag.
pub proof fn lemma_normalized_tags_not_longer(tags: Seq<Seq<char>>, result: Seq<Seq<char>>)
    requires
        normalized_tags_of(tags, result),
    ensures
        result.len() <= tags.len(),
{
    let forms = tags.map_values(|t: Seq<char>| normalized_tag(t));
    assert forall|x: Seq<char>| result.contains(x) implies forms.contains(x) by {
        let j = choose|j: int| 0 <= j < tags.len() && normalized_tag(#[trigger] tags[j]) == x;
        assert(forms[j] == x);
    }
    lemma_sorted_within_not_longer(forms, result);
}

/// Normalising a second time changes nothing, for tags each of which is its own
/// normalised form (trimming and lower-casing leave it as it is).
pub proof fn lemma_normalizing_settled_tags_again_changes_nothing(
    tags: Seq<Seq<char>>,
    once: Seq<Seq<char>>,
    twice: Seq<Seq<char>>,
)
    requires
        normalized_tags_of(tags, once),
        normalized_tags_of(once, twice),
        forall|x: Seq<char>| once.contains(x) ==> normalized_tag(x) == x,
    ensures
        twice == once,
{
    assert forall|x: Seq<char>| twice.contains(x) <==> once.contains(x) by {
        if is_normalized_tag_of(once, x) {
            let j = choose|j: int| 0 <= j < once.len() && normalized_tag(#[trigger] once[j]) == x;
            assert(once.contains(once[j]));
        }
        if once.contains(x) {
            let j = choose|j: int| 0 <= j < once.len() && once[j] == x;
            assert(normalized_tag(once[j]) == x);
            assert(is_normalized_tag_of(tags, x));
        }
    }
    lemma_strictly_sorted_unique(twice, once);
}

/// Surrounding whitespace of the tags does not matter: two lists whose tags agree
/// once trimmed, one by one, normalise alike.
pub proof fn lemma_tag_whitespace_does_not_matter(
    tags1: Seq<Seq<char>>,
    tags2: Seq<Seq<char>>,
    result1: Seq<Seq<char>>,
    result2: Seq<Seq<char>>,
)
    requires
        tags1.len() == tags2.len(),
        forall|i: int| 0 <= i < tags1.len() ==> trim_seq(#[trigger] tags1[i]) == trim_seq(tags2[i]),
        normalized_tags_of(tags1, result1),
        normalized_tags_of(tags2, result2),
    ensures
        result1 == result2,
{
    assert forall|x: Seq<char>| result1.contains(x) <==> result2.contains(x) by {
        if is_normalized_tag_of(tags1, x) {
            let j = choose|j: int| 0 <= j < tags1.len() && normalized_tag(#[trigger] tags1[j]) == x;
            assert(normalized_tag(tags2[j]) == x);
        }
        if is_normalized_tag_of(tags2, x) {
            let j = choose|j: int| 0 <= j < tags2.len() && normalized_tag(#[trigger] tags2[j]) == x;
            assert(normalized_tag(tags1[j]) == x);
        }
    }
    lemma_strictly_sorted_unique(result1, result2);
}

} // verus!
