use vstd::prelude::*;

verus! {

/// The number of frames that the meter remembers.
pub const FRAMES_CAPACITY: usize = 60;

/// The sum of `samples`.
pub open spec fn sum(samples: Seq<i32>) -> int
    decreases samples.len(),
{
    if samples.len() == 0 {
        0
    } else {
        sum(samples.drop_last()) + samples.last()
    }
}

/// `total` divided by `count`, rounded towards zero.
pub open spec fn rounded_quotient(total: int, count: int) -> int
    recommends
        count > 0,
{
    if total >= 0 {
        total / count
    } else {
        -((-total) / count)
    }
}

/// The sum of `count` samples lies within `count` times the range of one sample.
proof fn lemma_sum_bounds(samples: Seq<i32>)
    ensures
        samples.len() * i32::MIN <= sum(samples) <= samples.len() * i32::MAX,
    decreases samples.len(),
{
    if samples.len() > 0 {
        lemma_sum_bounds(samples.drop_last());
        assert(samples.len() * i32::MIN == (samples.len() - 1) * i32::MIN + i32::MIN)
            by (nonlinear_arith);
        assert(samples.len() * i32::MAX == (samples.len() - 1) * i32::MAX + i32::MAX)
            by (nonlinear_arith);
    }
}

/// Remembers the frame rates of the last `FRAMES_CAPACITY` frames, newest first.
#[derive(Debug)]
pub struct Meter {
    last_fps: Vec<i32>,
}

impl View for Meter {
    type V = Seq<i32>;

    closed spec fn view(&self) -> Seq<i32> {
        self.last_fps@
    }
}

impl Meter {
    /// A meter that has seen no frame: every remembered rate is zero.
    pub fn new() -> (meter: Meter)
        ensures
            meter@ == Seq::new(FRAMES_CAPACITY as nat, |i: int| 0i32),
    {
        let mut last_fps: Vec<i32> = Vec::new();
        let mut i: usize = 0;
        while i < FRAMES_CAPACITY
            invariant
                i <= FRAMES_CAPACITY,
                last_fps@ == Seq::new(i as nat, |k: int| 0i32),
            decreases FRAMES_CAPACITY - i,
        {
            last_fps.push(0);
            proof {
                assert(last_fps@ =~= Seq::new((i + 1) as nat, |k: int| 0i32));
            }
            i = i + 1;
        }
        Meter { last_fps }
    }

    /// Forgets the oldest rate and remembers `fps` as the newest.
    pub fn push(&mut self, fps: i32)
        requires
            old(self)@.len() == FRAMES_CAPACITY,
        ensures
            final(self)@ == seq![fps] + old(self)@.drop_last(),
            final(self)@.len() == FRAMES_CAPACITY,
    {
        self.last_fps.pop();
        self.last_fps.insert(0, fps);
        proof {
            assert(self.last_fps@ =~= seq![fps] + old(self)@.drop_last());
        }
    }

    /// The mean of the remembered rates, rounded towards zero.
    pub fn get_average(&self) -> (average: i32)
        requires
            self@.len() == FRAMES_CAPACITY,
        ensures
            average == rounded_quotient(sum(self@), FRAMES_CAPACITY as int),
    {
        let mut total: i64 = 0;
        let mut i: usize = 0;
        while i < self.last_fps.len()
            invariant
                i <= self.last_fps@.len(),
                self.last_fps@.len() == FRAMES_CAPACITY,
                total == sum(self.last_fps@.take(i as int)),
            decreases self.last_fps@.len() - i,
        {
            proof {
                lemma_sum_bounds(self.last_fps@.take(i as int));
                assert(self.last_fps@.take(i + 1).drop_last() =~= self.last_fps@.take(i as int));
            }
            total = total + self.last_fps[i] as i64;
            i = i + 1;
        }
        proof {
            assert(self.last_fps@.take(i as int) =~= self.last_fps@);
            lemma_sum_bounds(self.last_fps@);
        }
        if total >= 0 {
            (total / 60) as i32
        } else {
            let magnitude: i64 = -total;
            (-(magnitude / 60)) as i32
        }
    }
}

} // verus!
