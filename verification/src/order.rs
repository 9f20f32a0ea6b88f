//! The order in which things are listed.

use crate::text;
use vstd::prelude::*;

verus! {

/// What a thing is ordered by: a rank, and among equal ranks a text.
pub type Key = (u8, Vec<char>);

/// What a thing is ordered by: a rank, and among equal ranks a text.
pub type KeyModel = (u8, Seq<char>);

/// Whether the first key comes strictly before the second.
pub open spec fn key_before(a: KeyModel, b: KeyModel) -> bool {
    a.0 < b.0 || (a.0 == b.0 && text::text_before(a.1, b.1))
}

/// Whether the thing at `i` is listed before the thing at `j`: its key comes
/// before, or the keys are the same and it came first.
pub open spec fn listed_before(keys: Seq<KeyModel>, i: int, j: int) -> bool {
    key_before(keys[i], keys[j]) || (keys[i] == keys[j] && i < j)
}

/// Whether `order` holds each position of `keys` once, in the order in which
/// the things there are listed.
pub open spec fn is_listing(keys: Seq<KeyModel>, order: Seq<usize>) -> bool {
    &&& order.len() == keys.len()
    &&& order.no_duplicates()
    &&& forall|a: int| 0 <= a < order.len() ==> (#[trigger] order[a]) < keys.len()
    &&& forall|a: int, b: int|
        0 <= a < b < order.len() ==> listed_before(
            keys,
            #[trigger] order[a] as int,
            #[trigger] order[b] as int,
        )
}

/// The positions of the things with the given keys, in the order in which the
/// things are listed.
pub open spec fn listing(keys: Seq<KeyModel>) -> Seq<usize> {
    choose|order: Seq<usize>| is_listing(keys, order)
}

/// The things at the given positions.
pub open spec fn picked<T>(things: Seq<T>, order: Seq<usize>) -> Seq<T> {
    Seq::new(order.len(), |a: int| things[order[a] as int])
}

/// Each text as a key of the same rank.
pub open spec fn text_keys(texts: Seq<Seq<char>>) -> Seq<KeyModel> {
    Seq::new(texts.len(), |i: int| (0u8, texts[i]))
}

/// The texts in the order of their characters.
pub open spec fn sorted_texts(texts: Seq<Seq<char>>) -> Seq<Seq<char>> {
    picked(texts, listing(text_keys(texts)))
}

/// The lower case of a text.
pub uninterp spec fn lower_case(s: Seq<char>) -> Seq<char>;

/// `str::to_lowercase`: the lower case of the text by the Unicode tables. It
/// depends on the text alone.
#[verifier::external_body]
pub(crate) fn to_lower_case(s: &str) -> (r: String)
    ensures
        r@ == lower_case(s@),
{
    s.to_lowercase()
}

/// The positions so far that are listed, in order.
spec fn is_partial_listing(keys: Seq<KeyModel>, order: Seq<usize>, n: int) -> bool {
    &&& order.len() == n
    &&& forall|a: int| 0 <= a < order.len() ==> (#[trigger] order[a]) < n
    &&& forall|a: int, b: int|
        0 <= a < b < order.len() ==> listed_before(
            keys,
            #[trigger] order[a] as int,
            #[trigger] order[b] as int,
        )
}

proof fn lemma_key_order(a: KeyModel, b: KeyModel)
    ensures
        a == b || key_before(a, b) || key_before(b, a),
        !(key_before(a, b) && key_before(b, a)),
        !key_before(a, a),
{
    text::lemma_text_order_total(a.1, b.1);
}

proof fn lemma_listed_transitive(keys: Seq<KeyModel>, i: int, j: int, k: int)
    requires
        listed_before(keys, i, j),
        listed_before(keys, j, k),
    ensures
        listed_before(keys, i, k),
{
    if keys[i].0 == keys[j].0 && keys[j].0 == keys[k].0 && text::text_before(keys[i].1, keys[j].1)
        && text::text_before(keys[j].1, keys[k].1) {
        text::lemma_text_order_transitive(keys[i].1, keys[j].1, keys[k].1);
    }
}

/// A listing holds every position.
proof fn lemma_listing_holds_all(keys: Seq<KeyModel>, order: Seq<usize>, x: usize)
    requires
        is_listing(keys, order),
        x < keys.len(),
    ensures
        order.contains(x),
{
    let n = keys.len() as int;
    let places = Seq::new(order.len(), |a: int| order[a] as int);
    assert(places.no_duplicates());
    places.unique_seq_to_set();
    vstd::set_lib::lemma_int_range(0, n);
    let range = vstd::set_lib::set_int_range(0, n);
    assert forall|i: int| places.to_set().contains(i) implies range.contains(i) by {
        let a = choose|a: int| 0 <= a < places.len() && places[a] == i;
        assert(order[a] < keys.len());
    }
    vstd::set_lib::lemma_len_subset(places.to_set(), range);
    vstd::set_lib::lemma_subset_equality(places.to_set(), range);
    assert(range.contains(x as int));
    let a = choose|a: int| 0 <= a < places.len() && places[a] == x as int;
    assert(order[a] == x);
}

/// Two listings of the same keys agree up to any place.
proof fn lemma_listing_prefix(keys: Seq<KeyModel>, p: Seq<usize>, q: Seq<usize>, n: int)
    requires
        is_listing(keys, p),
        is_listing(keys, q),
        0 <= n <= keys.len(),
    ensures
        forall|a: int| 0 <= a < n ==> p[a] == q[a],
    decreases n,
{
    if n > 0 {
        let a = n - 1;
        lemma_listing_prefix(keys, p, q, a);
        if p[a] != q[a] {
            let x = p[a];
            let y = q[a];
            lemma_listing_holds_all(keys, q, x);
            lemma_listing_holds_all(keys, p, y);
            let b = choose|b: int| 0 <= b < q.len() && q[b] == x;
            let c = choose|c: int| 0 <= c < p.len() && p[c] == y;
            if b < a {
                assert(p[b] == x);
            }
            if c < a {
                assert(q[c] == y);
            }
            assert(listed_before(keys, q[a] as int, q[b] as int));
            assert(listed_before(keys, p[a] as int, p[c] as int));
            lemma_key_order(keys[x as int], keys[y as int]);
        }
    }
}

/// There is only one order in which things are listed.
pub proof fn lemma_listing_unique(keys: Seq<KeyModel>, order: Seq<usize>)
    requires
        is_listing(keys, order),
    ensures
        order == listing(keys),
{
    lemma_listing_prefix(keys, order, listing(keys), keys.len() as int);
    assert(order =~= listing(keys));
}

/// One more position, put where it is listed.
proof fn lemma_insert(keys: Seq<KeyModel>, before: Seq<usize>, low: int, n: usize)
    requires
        is_partial_listing(keys, before, n as int),
        0 <= low <= before.len(),
        forall|a: int|
            0 <= a < low ==> listed_before(keys, #[trigger] before[a] as int, n as int),
        forall|a: int|
            low <= a < before.len() ==> listed_before(
                keys,
                n as int,
                #[trigger] before[a] as int,
            ),
    ensures
        is_partial_listing(keys, before.insert(low, n), n + 1),
{
    let order = before.insert(low, n);
    assert forall|a: int, b: int| 0 <= a < b < order.len() implies listed_before(
        keys,
        #[trigger] order[a] as int,
        #[trigger] order[b] as int,
    ) by {
        if a < low {
            assert(order[a] == before[a]);
        } else if a > low {
            assert(order[a] == before[a - 1]);
        }
        if b < low {
            assert(order[b] == before[b]);
        } else if b > low {
            assert(order[b] == before[b - 1]);
        }
    }
    assert forall|a: int| 0 <= a < order.len() implies (#[trigger] order[a]) < n + 1 by {
        if a < low {
            assert(order[a] == before[a]);
        } else if a > low {
            assert(order[a] == before[a - 1]);
        }
    }
}

/// Once every position is listed, the listing is whole.
proof fn lemma_partial_listing_whole(keys: Seq<KeyModel>, order: Seq<usize>)
    requires
        is_partial_listing(keys, order, keys.len() as int),
    ensures
        is_listing(keys, order),
{
    assert forall|a: int, b: int|
        0 <= a < order.len() && 0 <= b < order.len() && a != b implies order[a] != order[b] by {
        lemma_key_order(keys[order[a] as int], keys[order[a] as int]);
        if a < b {
            assert(listed_before(keys, order[a] as int, order[b] as int));
        } else {
            assert(listed_before(keys, order[b] as int, order[a] as int));
        }
    }
}

/// The place among the last positions from `low` on where one more is listed.
proof fn lemma_place(keys: Seq<KeyModel>, order: Seq<usize>, n: usize, low: int) -> (place: int)
    requires
        n < keys.len(),
        is_partial_listing(keys, order, n as int),
        0 <= low <= order.len(),
        forall|a: int|
            0 <= a < low ==> listed_before(keys, #[trigger] order[a] as int, n as int),
    ensures
        low <= place <= order.len(),
        forall|a: int|
            0 <= a < place ==> listed_before(keys, #[trigger] order[a] as int, n as int),
        forall|a: int|
            place <= a < order.len() ==> listed_before(keys, n as int, #[trigger] order[a] as int),
    decreases order.len() - low,
{
    if low == order.len() {
        low
    } else {
        let at = order[low] as int;
        lemma_key_order(keys[n as int], keys[at]);
        if listed_before(keys, at, n as int) {
            lemma_place(keys, order, n, low + 1)
        } else {
            assert(listed_before(keys, n as int, at));
            assert forall|a: int| low <= a < order.len() implies listed_before(
                keys,
                n as int,
                #[trigger] order[a] as int,
            ) by {
                if a > low {
                    lemma_listed_transitive(keys, n as int, at, order[a] as int);
                }
            }
            low
        }
    }
}

/// The first positions can be listed.
proof fn lemma_partial_listing_exists(keys: Seq<KeyModel>, n: int) -> (order: Seq<usize>)
    requires
        0 <= n <= keys.len(),
        keys.len() <= usize::MAX,
    ensures
        is_partial_listing(keys, order, n),
    decreases n,
{
    if n == 0 {
        Seq::empty()
    } else {
        let before = lemma_partial_listing_exists(keys, n - 1);
        let last = (n - 1) as usize;
        let low = lemma_place(keys, before, last, 0);
        lemma_insert(keys, before, low, last);
        before.insert(low, last)
    }
}

/// There is an order in which things are listed.
pub proof fn lemma_listing_exists(keys: Seq<KeyModel>)
    requires
        keys.len() <= usize::MAX,
    ensures
        is_listing(keys, listing(keys)),
{
    let order = lemma_partial_listing_exists(keys, keys.len() as int);
    lemma_partial_listing_whole(keys, order);
}

/// What is listed is what was there, neither more nor less.
pub proof fn lemma_picked_members<T>(things: Seq<T>, keys: Seq<KeyModel>, thing: T)
    requires
        things.len() == keys.len(),
        keys.len() <= usize::MAX,
    ensures
        picked(things, listing(keys)).len() == things.len(),
        picked(things, listing(keys)).contains(thing) <==> things.contains(thing),
{
    lemma_listing_exists(keys);
    let order = listing(keys);
    let list = picked(things, order);
    if list.contains(thing) {
        let a = choose|a: int| 0 <= a < list.len() && list[a] == thing;
        assert(order[a] < keys.len());
        assert(things[order[a] as int] == thing);
    }
    if things.contains(thing) {
        let i = choose|i: int| 0 <= i < things.len() && things[i] == thing;
        lemma_listing_holds_all(keys, order, i as usize);
        let a = choose|a: int| 0 <= a < order.len() && order[a] == i as usize;
        assert(list[a] == thing);
    }
}

/// Whether the first key comes strictly before the second.
fn is_key_before(a: &Key, b: &Key) -> (r: bool)
    ensures
        r == key_before(a@, b@),
{
    a.0 < b.0 || (a.0 == b.0 && text::is_before(&a.1, &b.1))
}

/// The positions of the things with the given keys, in the order in which the
/// things are listed. Things with the same key keep their order.
pub fn listing_order(keys: &Vec<Key>) -> (order: Vec<usize>)
    ensures
        order@ == listing(text::views(keys@)),
        is_listing(text::views(keys@), order@),
{
    let ghost models = text::views(keys@);
    let mut order: Vec<usize> = Vec::new();
    let mut n: usize = 0;
    while n < keys.len()
        invariant
            n <= keys@.len(),
            models == text::views(keys@),
            is_partial_listing(models, order@, n as int),
        decreases keys@.len() - n,
    {
        let mut low: usize = 0;
        let mut high: usize = order.len();
        while low < high
            invariant
                n < keys@.len(),
                low <= high <= order@.len(),
                models == text::views(keys@),
                is_partial_listing(models, order@, n as int),
                forall|a: int| 0 <= a < low ==> listed_before(models, #[trigger] order@[a] as int, n as int),
                forall|a: int|
                    high <= a < order@.len() ==> listed_before(
                        models,
                        n as int,
                        #[trigger] order@[a] as int,
                    ),
            decreases high - low,
        {
            let mid: usize = low + (high - low) / 2;
            let at: usize = order[mid];
            proof {
                lemma_key_order(models[n as int], models[at as int]);
            }
            if is_key_before(&keys[n], &keys[at]) {
                assert(listed_before(models, n as int, at as int));
                assert forall|a: int| mid <= a < order@.len() implies listed_before(
                    models,
                    n as int,
                    #[trigger] order@[a] as int,
                ) by {
                    if a > mid {
                        lemma_listed_transitive(models, n as int, at as int, order@[a] as int);
                    }
                }
                high = mid;
            } else {
                assert(listed_before(models, at as int, n as int));
                assert forall|a: int| 0 <= a < mid + 1 implies listed_before(
                    models,
                    #[trigger] order@[a] as int,
                    n as int,
                ) by {
                    if a < mid {
                        lemma_listed_transitive(models, order@[a] as int, at as int, n as int);
                    }
                }
                low = mid + 1;
            }
        }
        proof {
            lemma_insert(models, order@, low as int, n);
        }
        order.insert(low, n);
        n += 1;
    }
    proof {
        lemma_partial_listing_whole(models, order@);
        lemma_listing_unique(models, order@);
    }
    order
}

/// The texts in the order of their characters.
pub fn sort_texts(texts: &Vec<String>) -> (r: Vec<String>)
    ensures
        text::views(r@) == sorted_texts(text::views(texts@)),
{
    let mut keys: Vec<Key> = Vec::new();
    let mut i: usize = 0;
    while i < texts.len()
        invariant
            i <= texts@.len(),
            keys@.len() == i,
            forall|j: int| 0 <= j < i ==> (#[trigger] keys@[j])@ == (0u8, texts@[j]@),
        decreases texts@.len() - i,
    {
        keys.push((0, text::chars_of(&texts[i])));
        i += 1;
    }
    assert(text::views(keys@) =~= text_keys(text::views(texts@)));
    let order: Vec<usize> = listing_order(&keys);
    let mut r: Vec<String> = Vec::new();
    let mut a: usize = 0;
    while a < order.len()
        invariant
            a <= order@.len(),
            r@.len() == a,
            is_listing(text::views(keys@), order@),
            keys@.len() == texts@.len(),
            forall|b: int| 0 <= b < a ==> (#[trigger] r@[b])@ == texts@[order@[b] as int]@,
        decreases order@.len() - a,
    {
        assert(order@[a as int] < keys@.len());
        r.push(texts[order[a]].clone());
        a += 1;
    }
    assert(text::views(r@) =~= sorted_texts(text::views(texts@)));
    r
}

/// Things are listed by rank, then by text, and things with the same rank and
/// text in the order in which they came.
pub proof fn lemma_listing_is_sorted(keys: Seq<KeyModel>, a: int, b: int)
    requires
        keys.len() <= usize::MAX,
        0 <= a < b < keys.len(),
    ensures
        ({
            let (i, j) = (listing(keys)[a] as int, listing(keys)[b] as int);
            &&& 0 <= i < keys.len() && 0 <= j < keys.len() && i != j
            &&& keys[i].0 <= keys[j].0
            &&& keys[i].0 == keys[j].0 ==> keys[i].1 == keys[j].1 || text::text_before(
                keys[i].1,
                keys[j].1,
            )
            &&& keys[i] == keys[j] ==> i < j
        }),
{
    lemma_listing_exists(keys);
    let (i, j) = (listing(keys)[a] as int, listing(keys)[b] as int);
    assert(listed_before(keys, i, j));
    lemma_key_order(keys[i], keys[i]);
}

/// Sorted texts are the same texts, each as often as before, in the order of
/// their characters.
pub proof fn lemma_sorted_texts(texts: Seq<Seq<char>>, a: int, b: int)
    requires
        texts.len() <= usize::MAX,
        0 <= a < b < texts.len(),
    ensures
        sorted_texts(texts).len() == texts.len(),
        sorted_texts(texts)[a] == sorted_texts(texts)[b] || text::text_before(
            sorted_texts(texts)[a],
            sorted_texts(texts)[b],
        ),
        texts.no_duplicates() ==> sorted_texts(texts)[a] != sorted_texts(texts)[b],
{
    let keys = text_keys(texts);
    lemma_listing_exists(keys);
    lemma_listing_is_sorted(keys, a, b);
}

} // verus!
