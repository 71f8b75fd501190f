use std::ops::Range;
use vstd::prelude::*;

verus! {

/// `k` lies in one of the ranges.
pub open spec fn covers(rs: Seq<Range<i32>>, k: int) -> bool {
    exists|i: int| 0 <= i < rs.len() && #[trigger] rs[i].start <= k < rs[i].end
}

/// Non-empty ranges in increasing order, with a gap between any two.
pub open spec fn canonical(rs: Seq<Range<i32>>) -> bool {
    &&& forall|i: int| 0 <= i < rs.len() ==> #[trigger] rs[i].start < rs[i].end
    &&& forall|i: int, j: int| 0 <= i < j < rs.len() ==> #[trigger] rs[i].end < #[trigger] rs[j].start
}

/// A set of key codes, held as sorted ranges with gaps between them.
#[derive(Debug, Clone)]
pub struct KeyRange(pub Vec<Range<i32>>);

fn min_i32(a: i32, b: i32) -> (r: i32)
    ensures
        r == if a < b { a } else { b },
{
    if a < b { a } else { b }
}

fn max_i32(a: i32, b: i32) -> (r: i32)
    ensures
        r == if a > b { a } else { b },
{
    if a > b { a } else { b }
}

/// Adds the keys `s .. e` to a canonical list of ranges.
fn insert_range(out: &Vec<Range<i32>>, s: i32, e: i32) -> (res: Vec<Range<i32>>)
    requires
        canonical(out@),
        s < e,
    ensures
        canonical(res@),
        forall|k: int|
            #![trigger covers(res@, k)]
            #![trigger covers(out@, k)]
            covers(res@, k) == (covers(out@, k) || s <= k < e),
{
    let mut res: Vec<Range<i32>> = Vec::new();
    let mut ms = s;
    let mut me = e;
    let mut placed = false;
    let mut i: usize = 0;
    while i < out.len()
        invariant
            canonical(out@),
            i <= out@.len(),
            ms < me,
            ms <= s,
            me >= e,
            canonical(res@),
            !placed ==> forall|j: int| 0 <= j < res@.len() ==> #[trigger] res@[j].end < ms,
            forall|j: int, m: int|
                0 <= j < res@.len() && i <= m < out@.len() ==> #[trigger] res@[j].end
                    < #[trigger] out@[m].start,
            placed ==> forall|m: int| i <= m < out@.len() ==> me < #[trigger] out@[m].start,
            forall|k: int|
                #![trigger covers(res@, k)]
                #![trigger covers(out@.subrange(0, i as int), k)]
                (covers(res@, k) || (!placed && ms <= k < me)) == (covers(out@.subrange(0, i as int), k)
                    || s <= k < e),
        decreases out@.len() - i,
    {
        let rs = out[i].start;
        let re = out[i].end;
        let ghost res0 = res@;
        let ghost ms0 = ms;
        let ghost me0 = me;
        let ghost placed0 = placed;
        proof {
            assert forall|k: int| covers(out@.subrange(0, i as int + 1), k) == (covers(out@.subrange(0, i as int), k)
                || out@[i as int].start <= k < out@[i as int].end) by {
                if covers(out@.subrange(0, i as int + 1), k) {
                    let j = choose|j: int| 0 <= j < i + 1 && #[trigger] out@.subrange(0, i as int + 1)[j].start <= k
                        < out@.subrange(0, i as int + 1)[j].end;
                    if j < i {
                        assert(out@.subrange(0, i as int)[j] == out@[j]);
                    }
                }
                if covers(out@.subrange(0, i as int), k) {
                    let j = choose|j: int| 0 <= j < i && #[trigger] out@.subrange(0, i as int)[j].start <= k
                        < out@.subrange(0, i as int)[j].end;
                    assert(out@.subrange(0, i as int + 1)[j] == out@[j]);
                }
                if out@[i as int].start <= k < out@[i as int].end {
                    assert(out@.subrange(0, i as int + 1)[i as int] == out@[i as int]);
                }
            }
        }
        if re < ms {
            res.push(rs..re);
        } else if rs > me {
            if !placed {
                res.push(ms..me);
                placed = true;
            }
            res.push(rs..re);
        } else {
            ms = min_i32(ms, rs);
            me = max_i32(me, re);
        }
        proof {
            assert forall|k: int|
                #![trigger covers(res@, k)]
                #![trigger covers(out@.subrange(0, i as int + 1), k)]
                (covers(res@, k) || (!placed && ms <= k < me)) == (covers(out@.subrange(0, i as int + 1), k)
                    || s <= k < e) by {
                let pre = covers(out@.subrange(0, i as int), k) || s <= k < e;
                assert((covers(res0, k) || (!placed0 && ms0 <= k < me0)) == pre);
                let n0 = res0.len() as int;
                if covers(res@, k) {
                    let j = choose|j: int| 0 <= j < res@.len() && #[trigger] res@[j].start <= k < res@[j].end;
                    if j < n0 {
                        assert(res0[j] == res@[j]);
                    }
                }
                if covers(res0, k) {
                    let j = choose|j: int| 0 <= j < res0.len() && #[trigger] res0[j].start <= k < res0[j].end;
                    assert(res0[j] == res@[j]);
                }
                if re < ms0 {
                    if rs <= k < re {
                        assert(res@[n0].start <= k < res@[n0].end);
                    }
                } else if rs > me0 {
                    if !placed0 {
                        if ms0 <= k < me0 {
                            assert(res@[n0].start <= k < res@[n0].end);
                        }
                        if rs <= k < re {
                            assert(res@[n0 + 1].start <= k < res@[n0 + 1].end);
                        }
                    } else {
                        if rs <= k < re {
                            assert(res@[n0].start <= k < res@[n0].end);
                        }
                    }
                } else {
                    if placed0 {
                        assert(me0 < out@[i as int].start);
                    }
                    assert(res@ == res0);
                }
            }
            assert forall|j: int, m: int|
                0 <= j < res@.len() && i + 1 <= m < out@.len() implies #[trigger] res@[j].end
                    < #[trigger] out@[m].start by {
                assert(out@[i as int].end < out@[m].start);
                if j < res0.len() {
                    assert(res0[j] == res@[j]);
                    assert(res0[j].end < out@[m].start);
                }
            }
        }
        i += 1;
    }
    if !placed {
        let ghost res0 = res@;
        res.push(ms..me);
        proof {
            assert forall|k: int| covers(res@, k) == (covers(res0, k) || ms <= k < me) by {
                if covers(res@, k) {
                    let j = choose|j: int| 0 <= j < res@.len() && #[trigger] res@[j].start <= k < res@[j].end;
                    if j < res0.len() {
                        assert(res0[j] == res@[j]);
                    }
                }
                if covers(res0, k) {
                    let j = choose|j: int| 0 <= j < res0.len() && #[trigger] res0[j].start <= k < res0[j].end;
                    assert(res0[j] == res@[j]);
                }
                if ms <= k < me {
                    assert(res@[res0.len() as int].start <= k < res@[res0.len() as int].end);
                }
            }
        }
    }
    proof {
        assert(out@.subrange(0, out@.len() as int) =~= out@);
    }
    res
}

impl KeyRange {
    /// Builds a key set from half-open ranges: empty ranges are dropped, and
    /// overlapping or touching ranges are merged.
    pub fn new(vec: Vec<Range<i32>>) -> (r: KeyRange)
        ensures
            canonical(r.0@),
            forall|k: int|
                #![trigger covers(r.0@, k)]
                #![trigger covers(vec@, k)]
                covers(r.0@, k) == covers(vec@, k),
    {
        let mut out: Vec<Range<i32>> = Vec::new();
        let mut i: usize = 0;
        while i < vec.len()
            invariant
                i <= vec@.len(),
                canonical(out@),
                forall|k: int|
                    #![trigger covers(out@, k)]
                    #![trigger covers(vec@.subrange(0, i as int), k)]
                    covers(out@, k) == covers(vec@.subrange(0, i as int), k),
            decreases vec@.len() - i,
        {
            let s = vec[i].start;
            let e = vec[i].end;
            proof {
                assert forall|k: int| covers(vec@.subrange(0, i as int + 1), k) == (covers(vec@.subrange(0, i as int), k)
                    || s <= k < e) by {
                    if covers(vec@.subrange(0, i as int + 1), k) {
                        let j = choose|j: int| 0 <= j < i + 1 && #[trigger] vec@.subrange(0, i as int + 1)[j].start <= k
                            < vec@.subrange(0, i as int + 1)[j].end;
                        if j < i {
                            assert(vec@.subrange(0, i as int)[j] == vec@[j]);
                        }
                    }
                    if covers(vec@.subrange(0, i as int), k) {
                        let j = choose|j: int| 0 <= j < i && #[trigger] vec@.subrange(0, i as int)[j].start <= k
                            < vec@.subrange(0, i as int)[j].end;
                        assert(vec@.subrange(0, i as int + 1)[j] == vec@[j]);
                    }
                    if s <= k < e {
                        assert(vec@.subrange(0, i as int + 1)[i as int] == vec@[i as int]);
                    }
                }
            }
            let ghost out0 = out@;
            if s < e {
                out = insert_range(&out, s, e);
            }
            proof {
                assert forall|k: int|
                    #![trigger covers(out@, k)]
                    #![trigger covers(vec@.subrange(0, i as int + 1), k)]
                    covers(out@, k) == covers(vec@.subrange(0, i as int + 1), k) by {
                    assert(covers(out0, k) == covers(vec@.subrange(0, i as int), k));
                }
            }
            i += 1;
        }
        proof {
            assert(vec@.subrange(0, vec@.len() as int) =~= vec@);
        }
        KeyRange(out)
    }
}


/// Walks the keys of a `KeyRange` in increasing order.
pub struct Iter<'a> {
    ranges: &'a Vec<Range<i32>>,
    index: usize,
    cursor: i32,
}

impl<'a> Iter<'a> {
    /// The ranges walked.
    pub closed spec fn ranges(&self) -> Seq<Range<i32>> {
        self.ranges@
    }

    /// Every key below the cursor has been handed out.
    pub closed spec fn cursor(&self) -> int {
        self.cursor as int
    }

    pub closed spec fn wf(&self) -> bool {
        &&& canonical(self.ranges@)
        &&& self.index <= self.ranges@.len()
        &&& forall|j: int| 0 <= j < self.index ==> #[trigger] self.ranges@[j].end <= self.cursor
        &&& self.index < self.ranges@.len() ==> (self.index > 0 ==> self.ranges@[self.index - 1].end
            <= self.cursor)
    }

    /// The next key: the least key of the set that is not below the cursor.
    pub fn next(&mut self) -> (r: Option<i32>)
        requires
            old(self).wf(),
        ensures
            final(self).wf(),
            final(self).ranges() == old(self).ranges(),
            r matches Some(k) ==> {
                &&& covers(old(self).ranges(), k as int)
                &&& k >= old(self).cursor()
                &&& forall|j: int| old(self).cursor() <= j < k ==> !covers(old(self).ranges(), j)
                &&& final(self).cursor() == k + 1
            },
            r is None ==> forall|j: int| j >= old(self).cursor() ==> !covers(old(self).ranges(), j),
    {
        let ghost c0 = self.cursor as int;
        while self.index < self.ranges.len()
            invariant
                self.wf(),
                self.ranges@ == old(self).ranges(),
                self.cursor == c0,
                c0 == old(self).cursor(),
            decreases self.ranges@.len() - self.index,
        {
            let start = self.ranges[self.index].start;
            let end = self.ranges[self.index].end;
            let c = if self.cursor > start { self.cursor } else { start };
            if c < end {
                proof {
                    assert forall|j: int| c0 <= j < c implies !covers(self.ranges@, j) by {
                        if covers(self.ranges@, j) {
                            let m = choose|m: int| 0 <= m < self.ranges@.len() && #[trigger] self.ranges@[m].start <= j
                                < self.ranges@[m].end;
                            if m > self.index {
                                assert(self.ranges@[self.index as int].end < self.ranges@[m].start);
                            }
                        }
                    }
                    assert(self.ranges@[self.index as int].start <= c < self.ranges@[self.index as int].end);
                }
                self.cursor = c + 1;
                return Some(c);
            }
            self.index = self.index + 1;
        }
        proof {
            assert forall|j: int| j >= c0 implies !covers(self.ranges@, j) by {
                if covers(self.ranges@, j) {
                    let m = choose|m: int| 0 <= m < self.ranges@.len() && #[trigger] self.ranges@[m].start <= j
                        < self.ranges@[m].end;
                }
            }
        }
        None
    }
}

impl KeyRange {
    /// Walks the keys of the set in increasing order.
    pub fn iter(&self) -> (r: Iter<'_>)
        requires
            canonical(self.0@),
        ensures
            r.wf(),
            r.ranges() == self.0@,
            r.cursor() == i32::MIN,
    {
        Iter { ranges: &self.0, index: 0, cursor: i32::MIN }
    }
}

} // verus!
