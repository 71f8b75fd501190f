use vstd::prelude::*;

verus! {

/// The number of key codes: codes run from `0` to `KEY_CODE_COUNT - 1`.
pub const KEY_CODE_COUNT: usize = 349;

/// An entry of a key mask's initial contents: one key, or an inclusive range.
#[derive(Clone, Copy, Debug, PartialEq, Eq)]
pub enum KeyItem {
    Key(i32),
    Range(i32, i32),
}

pub open spec fn valid_key(k: int) -> bool {
    0 <= k < KEY_CODE_COUNT
}

pub open spec fn valid_item(item: KeyItem) -> bool {
    match item {
        KeyItem::Key(k) => valid_key(k as int),
        KeyItem::Range(a, b) => valid_key(a as int) && valid_key(b as int),
    }
}

/// The item names key `k`.
pub open spec fn item_has(item: KeyItem, k: int) -> bool {
    match item {
        KeyItem::Key(a) => a == k,
        KeyItem::Range(a, b) => a <= k <= b,
    }
}

/// Some item of `items` names key `k`.
pub open spec fn named_by(items: Seq<KeyItem>, k: int) -> bool
    decreases items.len(),
{
    items.len() > 0 && (named_by(items.drop_last(), k) || item_has(items.last(), k))
}

/// The key codes below `c` whose bits are set, in increasing order.
pub open spec fn set_keys(bits: Seq<bool>, c: int) -> Seq<i32>
    decreases c,
{
    if c <= 0 {
        Seq::empty()
    } else if bits[c - 1] {
        set_keys(bits, c - 1).push((c - 1) as i32)
    } else {
        set_keys(bits, c - 1)
    }
}

/// One bit per key code.
#[derive(Clone, Debug)]
pub struct KeyMask {
    mask: Vec<bool>,
}

impl KeyMask {
    /// The bit of each key code.
    pub closed spec fn bits(&self) -> Seq<bool> {
        self.mask@
    }

    pub open spec fn wf(&self) -> bool {
        self.bits().len() == KEY_CODE_COUNT
    }

    /// A mask with the bits of the given keys and key ranges set, and no other.
    pub fn new(keys: &[KeyItem]) -> (r: KeyMask)
        requires
            forall|i: int| 0 <= i < keys@.len() ==> valid_item(#[trigger] keys@[i]),
        ensures
            r.wf(),
            forall|k: int| valid_key(k) ==> #[trigger] r.bits()[k] == named_by(keys@, k),
    {
        let mut mask = KeyMask { mask: Vec::new() };
        let mut c: usize = 0;
        while c < KEY_CODE_COUNT
            invariant
                c <= KEY_CODE_COUNT,
                mask.mask@.len() == c,
                forall|k: int| 0 <= k < c ==> !mask.mask@[k],
            decreases KEY_CODE_COUNT - c,
        {
            mask.mask.push(false);
            c += 1;
        }
        let mut i: usize = 0;
        while i < keys.len()
            invariant
                forall|j: int| 0 <= j < keys@.len() ==> valid_item(#[trigger] keys@[j]),
                i <= keys@.len(),
                mask.wf(),
                forall|k: int|
                    valid_key(k) ==> #[trigger] mask.bits()[k] == named_by(keys@.subrange(0, i as int), k),
            decreases keys@.len() - i,
        {
            proof {
                assert(keys@.subrange(0, i as int + 1).drop_last() =~= keys@.subrange(0, i as int));
                assert(keys@.subrange(0, i as int + 1).last() == keys@[i as int]);
            }
            match keys[i] {
                KeyItem::Key(k) => mask.set(k, true),
                KeyItem::Range(a, b) => mask.set_range(a, b, true),
            }
            i += 1;
        }
        proof {
            assert(keys@.subrange(0, keys@.len() as int) =~= keys@);
        }
        mask
    }

    /// Sets the bit of a key.
    pub fn set(&mut self, key: i32, val: bool)
        requires
            old(self).wf(),
            valid_key(key as int),
        ensures
            final(self).wf(),
            final(self).bits() == old(self).bits().update(key as int, val),
    {
        self.mask.set(key as usize, val);
    }

    /// Sets the bits of the keys `first ..= last`.
    pub fn set_range(&mut self, first: i32, last: i32, val: bool)
        requires
            old(self).wf(),
            valid_key(first as int),
            valid_key(last as int),
        ensures
            final(self).wf(),
            forall|k: int|
                0 <= k < KEY_CODE_COUNT ==> #[trigger] final(self).bits()[k] == if first <= k <= last {
                    val
                } else {
                    old(self).bits()[k]
                },
    {
        let mut k = first;
        while k <= last
            invariant
                self.wf(),
                first <= k,
                valid_key(first as int),
                valid_key(last as int),
                first <= last ==> k <= last + 1,
                first > last ==> k == first,
                forall|j: int|
                    0 <= j < KEY_CODE_COUNT ==> #[trigger] self.bits()[j] == if first <= j < k {
                        val
                    } else {
                        old(self).bits()[j]
                    },
            decreases last + 1 - k,
        {
            self.mask.set(k as usize, val);
            k += 1;
        }
    }

    /// Gets the bit of a key.
    pub fn get(&self, key: i32) -> (r: bool)
        requires
            self.wf(),
            valid_key(key as int),
        ensures
            r == self.bits()[key as int],
    {
        self.mask[key as usize]
    }

    /// The keys whose bits are set, in increasing order.
    pub fn keys(&self) -> (r: Vec<i32>)
        requires
            self.wf(),
        ensures
            r@ == set_keys(self.bits(), KEY_CODE_COUNT as int),
    {
        let mut r: Vec<i32> = Vec::new();
        let mut c: usize = 0;
        while c < KEY_CODE_COUNT
            invariant
                self.wf(),
                c <= KEY_CODE_COUNT,
                r@ == set_keys(self.bits(), c as int),
            decreases KEY_CODE_COUNT - c,
        {
            if self.mask[c] {
                r.push(c as i32);
            }
            c += 1;
        }
        r
    }
}

} // verus!
