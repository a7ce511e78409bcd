use vstd::prelude::*;

verus! {

/// Sum of the durations of a run of frames.
pub open spec fn duration_sum<T>(frames: Seq<(T, u32)>) -> int
    decreases frames.len(),
{
    if frames.len() == 0 {
        0
    } else {
        duration_sum(frames.drop_last()) + frames.last().1
    }
}

proof fn lemma_duration_sum_step<T>(frames: Seq<(T, u32)>, i: int)
    requires
        0 <= i < frames.len(),
    ensures
        duration_sum(frames.take(i + 1)) == duration_sum(frames.take(i)) + frames[i].1,
        duration_sum(frames.take(i)) >= 0,
{
    assert(frames.take(i + 1).drop_last() =~= frames.take(i));
    lemma_duration_sum_nonneg(frames.take(i));
}

proof fn lemma_duration_sum_nonneg<T>(frames: Seq<(T, u32)>)
    ensures
        duration_sum(frames) >= 0,
    decreases frames.len(),
{
    if frames.len() > 0 {
        lemma_duration_sum_nonneg(frames.drop_last());
    }
}

/// A looping run of frames, each shown for its duration in milliseconds.
#[derive(Debug)]
pub struct Animation<T> {
    pub frames: Vec<(T, u32)>,
    pub total_length: u32,
}

impl<T> Animation<T> {
    /// The total length is the sum of the frame durations, and not zero.
    pub open spec fn wf(&self) -> bool {
        &&& self.total_length == duration_sum(self.frames@)
        &&& self.total_length > 0
    }

    /// An animation of these frames, or `None` when their durations add up
    /// to more than `u32::MAX` milliseconds.
    pub fn new(frames: Vec<(T, u32)>) -> (r: Option<Animation<T>>)
        ensures
            match r {
                Some(a) => a.frames@ == frames@ && a.total_length == duration_sum(frames@),
                None => duration_sum(frames@) > u32::MAX,
            },
    {
        let mut total: u64 = 0;
        let mut i: usize = 0;
        while i < frames.len()
            invariant
                0 <= i <= frames@.len(),
                total == duration_sum(frames@.take(i as int)),
                total <= u32::MAX,
            decreases frames@.len() - i,
        {
            proof {
                lemma_duration_sum_step(frames@, i as int);
            }
            total = total + frames[i].1 as u64;
            i += 1;
            if total > u32::MAX as u64 {
                proof {
                    lemma_sum_monotone(frames@, i as int);
                }
                return None;
            }
        }
        assert(frames@.take(frames@.len() as int) =~= frames@);
        Some(Animation { frames, total_length: total as u32 })
    }

    /// Index of the frame on show `time` milliseconds in, the animation
    /// looping over its total length.
    pub fn frame_index(&self, time: u32) -> (r: usize)
        requires
            self.wf(),
        ensures
            r < self.frames@.len(),
            duration_sum(self.frames@.take(r as int)) <= time % self.total_length < duration_sum(
                self.frames@.take(r + 1),
            ),
    {
        let t: u32 = time % self.total_length;
        let mut rest: u32 = t;
        let mut i: usize = 0;
        while i < self.frames.len()
            invariant
                self.wf(),
                t == time % self.total_length,
                0 <= i <= self.frames@.len(),
                rest == t - duration_sum(self.frames@.take(i as int)),
            decreases self.frames@.len() - i,
        {
            proof {
                lemma_duration_sum_step(self.frames@, i as int);
            }
            let length = self.frames[i].1;
            if rest >= length {
                rest = rest - length;
            } else {
                return i;
            }
            i += 1;
        }
        proof {
            assert(self.frames@.take(self.frames@.len() as int) =~= self.frames@);
        }
        // the loop always returns: the durations add up to more than `t`
        0
    }

    /// The frame on show `time` milliseconds in.
    pub fn get_at_time(&self, time: u32) -> (r: &T)
        requires
            self.wf(),
        ensures
            exists|i: int|
                0 <= i < self.frames@.len() && *r == self.frames@[i].0 && duration_sum(
                    #[trigger] self.frames@.take(i),
                ) <= time % self.total_length < duration_sum(self.frames@.take(i + 1)),
    {
        let i = self.frame_index(time);
        &self.frames[i].0
    }
}

proof fn lemma_sum_monotone<T>(frames: Seq<(T, u32)>, i: int)
    requires
        0 <= i <= frames.len(),
    ensures
        duration_sum(frames.take(i)) <= duration_sum(frames),
    decreases frames.len() - i,
{
    if i < frames.len() {
        lemma_duration_sum_step(frames, i);
        lemma_sum_monotone(frames, i + 1);
    } else {
        assert(frames.take(i) =~= frames);
    }
}

/// Tags name increasing, disjoint, inclusive frame ranges within `n`
/// frames.
pub open spec fn tags_in_order(tags: Seq<(usize, usize)>, n: int) -> bool {
    &&& forall|i: int| 0 <= i < tags.len() ==> #[trigger] tags[i].0 <= tags[i].1 < n
    &&& forall|i: int| 0 < i < tags.len() ==> tags[i - 1].1 < #[trigger] tags[i].0
}

/// The frames that tag `t` covers.
pub open spec fn tag_frames<T>(frames: Seq<(T, u32)>, t: (usize, usize)) -> Seq<(T, u32)> {
    frames.subrange(t.0 as int, t.1 + 1)
}

fn check_tags(tags: &[(usize, usize)], n: usize) -> (r: bool)
    ensures
        r == tags_in_order(tags@, n as int),
{
    let mut i: usize = 0;
    while i < tags.len()
        invariant
            0 <= i <= tags@.len(),
            forall|j: int| 0 <= j < i ==> #[trigger] tags@[j].0 <= tags@[j].1 < n,
            forall|j: int| 0 < j < i ==> tags@[j - 1].1 < #[trigger] tags@[j].0,
        decreases tags@.len() - i,
    {
        let (from, to) = tags[i];
        if !(from <= to && to < n) {
            return false;
        }
        if i > 0 && tags[i - 1].1 >= from {
            return false;
        }
        i += 1;
    }
    true
}

/// Splits a file's frames into one animation per tag, each with the frames
/// of its inclusive range. `None` when the ranges are not increasing,
/// disjoint and within the frames, or when an animation would last more
/// than `u32::MAX` milliseconds.
pub fn split_by_tags<T>(frames: Vec<(T, u32)>, tags: &[(usize, usize)]) -> (r: Option<Vec<Animation<T>>>)
    ensures
        match r {
            Some(anims) => tags_in_order(tags@, frames@.len() as int) && anims@.len() == tags@.len()
                && forall|i: int|
                0 <= i < tags@.len() ==> (#[trigger] anims@[i]).frames@ == tag_frames(
                    frames@,
                    tags@[i],
                ) && anims@[i].total_length == duration_sum(tag_frames(frames@, tags@[i])),
            None => !tags_in_order(tags@, frames@.len() as int) || exists|i: int|
                0 <= i < tags@.len() && duration_sum(tag_frames(frames@, #[trigger] tags@[i]))
                    > u32::MAX,
        },
{
    let ghost all = frames@;
    let n = frames.len();
    if !check_tags(tags, n) {
        return None;
    }
    let mut pending = frames;
    // reversed, so that popping yields the frames in order
    let mut rest: Vec<(T, u32)> = Vec::new();
    while pending.len() > 0
        invariant
            n == all.len(),
            pending@ == all.take(pending@.len() as int),
            rest@.len() == n - pending@.len(),
            forall|k: int| 0 <= k < rest@.len() ==> #[trigger] rest@[k] == all[n - 1 - k],
        decreases pending@.len(),
    {
        let f = pending.pop().unwrap();
        rest.push(f);
        assert(pending@ =~= all.take(pending@.len() as int));
    }
    let mut taken: usize = 0;
    let mut anims: Vec<Animation<T>> = Vec::new();
    let mut i: usize = 0;
    while i < tags.len()
        invariant
            n == all.len(),
            all == frames@,
            tags_in_order(tags@, n as int),
            0 <= i <= tags@.len(),
            taken <= n,
            i > 0 ==> taken == tags@[i - 1].1 + 1,
            i == 0 ==> taken == 0,
            rest@.len() == n - taken,
            forall|k: int| 0 <= k < rest@.len() ==> #[trigger] rest@[k] == all[n - 1 - k],
            anims@.len() == i,
            forall|j: int|
                0 <= j < i ==> (#[trigger] anims@[j]).frames@ == tag_frames(all, tags@[j])
                    && anims@[j].total_length == duration_sum(tag_frames(all, tags@[j])),
        decreases tags@.len() - i,
    {
        let (from, to) = tags[i];
        assert(tags@[i as int].0 <= tags@[i as int].1 < n);
        if i > 0 {
            assert(tags@[i - 1].1 < tags@[i as int].0);
        }
        while taken < from
            invariant
                n == all.len(),
                taken <= from <= n,
                rest@.len() == n - taken,
                forall|k: int| 0 <= k < rest@.len() ==> #[trigger] rest@[k] == all[n - 1 - k],
            decreases from - taken,
        {
            let _ = rest.pop();
            taken += 1;
        }
        let mut picked: Vec<(T, u32)> = Vec::new();
        while taken <= to
            invariant
                n == all.len(),
                from <= taken <= to + 1,
                to < n,
                rest@.len() == n - taken,
                forall|k: int| 0 <= k < rest@.len() ==> #[trigger] rest@[k] == all[n - 1 - k],
                picked@ == all.subrange(from as int, taken as int),
            decreases to + 1 - taken,
        {
            let f = rest.pop().unwrap();
            assert(f == all[taken as int]);
            picked.push(f);
            assert(picked@ =~= all.subrange(from as int, taken + 1));
            taken += 1;
        }
        assert(picked@ == tag_frames(all, tags@[i as int]));
        match Animation::new(picked) {
            Some(a) => anims.push(a),
            None => {
                assert(duration_sum(tag_frames(all, tags@[i as int])) > u32::MAX);
                assert(exists|j: int|
                    0 <= j < tags@.len() && duration_sum(tag_frames(all, #[trigger] tags@[j]))
                        > u32::MAX);
                return None;
            },
        }
        i += 1;
    }
    Some(anims)
}

} // verus!
