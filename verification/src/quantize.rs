//! Choosing the palette entry nearest to a colour.

use vstd::prelude::*;

verus! {

/// `k` is the entry chosen among `keys[1..]`: its key is below `limit`, no
/// other key is smaller, and no earlier entry has a key as small.
/// Entry 0 takes no part in the choice.
pub open spec fn is_nearest(keys: Seq<u32>, limit: u32, k: int) -> bool {
    &&& 1 <= k < keys.len()
    &&& keys[k] < limit
    &&& forall|i: int| 1 <= i < keys.len() ==> keys[k] <= #[trigger] keys[i]
    &&& forall|i: int| 1 <= i < k ==> keys[k] < #[trigger] keys[i]
}

/// No entry after the first has a key below `limit`.
pub open spec fn none_below(keys: Seq<u32>, limit: u32) -> bool {
    forall|i: int| 1 <= i < keys.len() ==> limit <= #[trigger] keys[i]
}

/// Picks the entry with the smallest key among all entries but the first,
/// the earliest one on a tie, provided its key is below `limit`.
///
/// `keys[i]` orders palette entry `i` by its distance to a colour: a smaller
/// key is a smaller distance. Entry 0 of the palette is skipped.
pub fn nearest_index(keys: &Vec<u32>, limit: u32) -> (k: Option<usize>)
    ensures
        match k {
            Some(k) => is_nearest(keys@, limit, k as int),
            None => none_below(keys@, limit),
        },
{
    let mut best: u32 = limit;
    let mut target: Option<usize> = None;
    let n = keys.len();
    let mut i: usize = 1;
    while i < n
        invariant
            n == keys.len(),
            1 <= i,
            i <= n || i == 1,
            match target {
                Some(k) => {
                    &&& 1 <= k < i
                    &&& best == keys@[k as int]
                    &&& keys@[k as int] < limit
                    &&& forall|j: int| 1 <= j < i ==> keys@[k as int] <= #[trigger] keys@[j]
                    &&& forall|j: int| 1 <= j < k ==> keys@[k as int] < #[trigger] keys@[j]
                },
                None => {
                    &&& best == limit
                    &&& forall|j: int| 1 <= j < i ==> limit <= #[trigger] keys@[j]
                },
            },
        decreases n - i,
    {
        if keys[i] < best {
            best = keys[i];
            target = Some(i);
        }
        i = i + 1;
    }
    target
}

/// At most one entry is the nearest one.
pub proof fn lemma_nearest_unique(keys: Seq<u32>, limit: u32, k1: int, k2: int)
    requires
        is_nearest(keys, limit, k1),
        is_nearest(keys, limit, k2),
    ensures
        k1 == k2,
{
    if k1 < k2 {
        assert(keys[k2] < keys[k1]);
        assert(keys[k1] <= keys[k2]);
    } else if k2 < k1 {
        assert(keys[k1] < keys[k2]);
        assert(keys[k2] <= keys[k1]);
    }
}

/// Scanning entries 1 up to `j`: either none has a key below `limit`, or the
/// earliest entry with the smallest key is below `limit` and beats every
/// entry scanned so far.
proof fn lemma_nearest_in_prefix(keys: Seq<u32>, limit: u32, j: int) -> (k: int)
    requires
        1 <= j <= keys.len(),
    ensures
        k == 0 ==> forall|i: int| 1 <= i < j ==> limit <= #[trigger] keys[i],
        k != 0 ==> {
            &&& 1 <= k < j
            &&& keys[k] < limit
            &&& forall|i: int| 1 <= i < j ==> keys[k] <= #[trigger] keys[i]
            &&& forall|i: int| 1 <= i < k ==> keys[k] < #[trigger] keys[i]
        },
    decreases j,
{
    if j == 1 {
        0
    } else {
        let k = lemma_nearest_in_prefix(keys, limit, j - 1);
        if k == 0 {
            if keys[j - 1] < limit {
                j - 1
            } else {
                0
            }
        } else if keys[j - 1] < keys[k] {
            j - 1
        } else {
            k
        }
    }
}

/// Where some entry after the first has a key below `limit`, a nearest
/// entry exists.
pub proof fn lemma_nearest_exists(keys: Seq<u32>, limit: u32, i: int)
    requires
        1 <= i < keys.len(),
        keys[i] < limit,
    ensures
        exists|k: int| is_nearest(keys, limit, k),
{
    let k = lemma_nearest_in_prefix(keys, limit, keys.len() as int);
    assert(keys[i] >= limit || k != 0);
    assert(is_nearest(keys, limit, k));
}

/// The palette colour chosen for keys: the nearest entry, or `fallback`
/// where no entry has a key below `limit`.
pub open spec fn chosen_color<T>(palette: Map<u32, T>, keys: Seq<u32>, limit: u32, fallback: T) -> T {
    if exists|k: int| is_nearest(keys, limit, k) {
        palette[(choose|k: int| is_nearest(keys, limit, k)) as u32]
    } else {
        fallback
    }
}

/// The keys of the palette entries for colour `c`, by id: entry `i` (for
/// `i` from 1 up to the palette's size) has key `key(c, palette[i])`;
/// entry 0 takes no part and is given `limit`.
pub open spec fn palette_keys<T>(palette: Map<u32, T>, key: spec_fn(T, T) -> u32, limit: u32, c: T) -> Seq<u32> {
    Seq::new(palette.len(), |i: int| if i == 0 { limit } else { key(c, palette[i as u32]) })
}

/// The palette colour nearest to `c`, where `key(c, entry)` orders the
/// entries by their distance to `c`.
pub open spec fn nearest_color<T>(
    palette: Map<u32, T>,
    key: spec_fn(T, T) -> u32,
    limit: u32,
    fallback: T,
    c: T,
) -> T {
    chosen_color(palette, palette_keys(palette, key, limit, c), limit, fallback)
}

/// The colour chosen for `c` is the palette entry nearest to it by the key
/// function itself: among the entries with ids from 1 up to the palette's
/// size, it has the smallest key `key(c, entry)`, below `limit`, and is the
/// earliest such entry; where no entry's key is below `limit` the colour is
/// `fallback`.
pub proof fn lemma_nearest_color_by_key<T>(
    palette: Map<u32, T>,
    key: spec_fn(T, T) -> u32,
    limit: u32,
    fallback: T,
    c: T,
)
    ensures
        (forall|i: int| 1 <= i < palette.len() ==> limit <= #[trigger] key(c, palette[i as u32]))
            ==> nearest_color(palette, key, limit, fallback, c) == fallback,
        (exists|i: int| 1 <= i < palette.len() && #[trigger] key(c, palette[i as u32]) < limit)
            ==> exists|k: int|
            {
                &&& 1 <= k < palette.len()
                &&& nearest_color(palette, key, limit, fallback, c) == #[trigger] palette[k as u32]
                &&& key(c, palette[k as u32]) < limit
                &&& forall|i: int| 1 <= i < palette.len() ==> key(c, palette[k as u32]) <= #[trigger] key(c, palette[i as u32])
                &&& forall|i: int| 1 <= i < k ==> key(c, palette[k as u32]) < #[trigger] key(c, palette[i as u32])
            },
{
    let keys = palette_keys(palette, key, limit, c);
    assert forall|i: int| 1 <= i < palette.len() implies #[trigger] keys[i] == key(c, palette[i as u32]) by {}
    if exists|i: int| 1 <= i < palette.len() && #[trigger] key(c, palette[i as u32]) < limit {
        let i = choose|i: int| 1 <= i < palette.len() && #[trigger] key(c, palette[i as u32]) < limit;
        assert(keys[i] < limit);
        lemma_nearest_exists(keys, limit, i);
        let k = choose|k: int| is_nearest(keys, limit, k);
        assert(nearest_color(palette, key, limit, fallback, c) == palette[k as u32]);
        assert forall|j: int| 1 <= j < palette.len() implies key(c, palette[k as u32]) <= #[trigger] key(c, palette[j as u32]) by {
            assert(keys[k] <= keys[j]);
        }
        assert forall|j: int| 1 <= j < k implies key(c, palette[k as u32]) < #[trigger] key(c, palette[j as u32]) by {
            assert(keys[k] < keys[j]);
        }
    }
    if forall|i: int| 1 <= i < palette.len() ==> limit <= #[trigger] key(c, palette[i as u32]) {
        if exists|k: int| is_nearest(keys, limit, k) {
            let k = choose|k: int| is_nearest(keys, limit, k);
            assert(keys[k] < limit);
            assert(limit <= key(c, palette[k as u32]));
        }
    }
}

} // verus!
