//! Heading hierarchy numbering.
//!
//! The stack tracks nested heading levels across a whole document and yields
//! a dotted numeric path per heading, independent of the raw markup levels:
//! the first heading fixes the floor (treated as depth 1), deeper headings
//! push fresh counters, equal levels increment, shallower levels pop.

use vstd::prelude::*;
use crate::strutil::dec_digits;

verus! {

/// One record per finished heading, in document order.
pub struct HeadingInfo {
    /// Effective depth of the heading (stack depth, not the markup level).
    pub level: u8,
    /// Plain escaped text of the heading, all markup stripped.
    pub text: String,
    /// Dotted numeric path, e.g. `2.1.3`.
    pub number: String,
}

/// Mathematical model of a `HeadingStack`.
pub ghost struct HeadModel {
    /// Level of the first heading seen; 0 while no heading was seen.
    pub floor: int,
    /// Effective level of the last heading seen; 0 while no heading was seen.
    pub current: int,
    /// One counter per open depth, outermost first.
    pub counters: Seq<u64>,
}

/// Tracks heading nesting and produces the dotted numbering.
pub struct HeadingStack {
    floor: u8,
    current: u8,
    stack: Vec<u64>,
}

impl View for HeadingStack {
    type V = HeadModel;

    closed spec fn view(&self) -> HeadModel {
        HeadModel { floor: self.floor as int, current: self.current as int, counters: self.stack@ }
    }
}

/// A counter increment; the counter sticks at its maximum rather than wrap.
pub open spec fn bump(c: u64) -> u64 {
    if c == u64::MAX {
        c
    } else {
        (c + 1) as u64
    }
}

/// A run of fresh counters, all 1.
pub open spec fn ones(n: int) -> Seq<u64> {
    Seq::new(n as nat, |i: int| 1u64)
}

/// A nominal markup level clamped to at least 1.
pub open spec fn clamp_level(level: u8) -> int {
    if level == 0 {
        1
    } else {
        level as int
    }
}

/// The transition of the heading stack on one heading start.
pub open spec fn enter_spec(m: HeadModel, level: u8) -> HeadModel {
    let nominal = clamp_level(level);
    if m.current == 0 {
        HeadModel { floor: nominal, current: nominal, counters: seq![1u64] }
    } else {
        let lev = if nominal < m.floor {
            m.floor
        } else {
            nominal
        };
        if m.current > lev {
            let kept = m.counters.take(m.counters.len() - (m.current - lev));
            HeadModel {
                floor: m.floor,
                current: lev,
                counters: kept.drop_last().push(bump(kept.last())),
            }
        } else if m.current == lev {
            HeadModel {
                floor: m.floor,
                current: lev,
                counters: m.counters.drop_last().push(bump(m.counters.last())),
            }
        } else {
            HeadModel { floor: m.floor, current: lev, counters: m.counters + ones(lev - m.current) }
        }
    }
}

/// The dotted decimal representation of a counter stack.
pub open spec fn repr_spec(counters: Seq<u64>) -> Seq<char>
    decreases counters.len(),
{
    if counters.len() == 0 {
        Seq::empty()
    } else if counters.len() == 1 {
        dec_digits(counters[0] as nat)
    } else {
        repr_spec(counters.drop_last()) + seq!['.'] + dec_digits(counters.last() as nat)
    }
}

/// Well-formedness: the counter stack spans the levels from floor to current.
pub open spec fn head_wf(m: HeadModel) -> bool {
    &&& (m.current == 0 ==> m.floor == 0 && m.counters.len() == 0)
    &&& (m.current != 0 ==> 1 <= m.floor <= m.current <= 255 && m.counters.len() == m.current
        - m.floor + 1)
}

impl HeadingStack {
    /// An empty stack: no heading seen yet.
    pub fn new() -> (r: HeadingStack)
        ensures
            r@ == (HeadModel { floor: 0, current: 0, counters: Seq::<u64>::empty() }),
            head_wf(r@),
    {
        let r = HeadingStack { floor: 0, current: 0, stack: Vec::new() };
        proof {
            assert(r@.counters =~= Seq::<u64>::empty());
        }
        r
    }

    /// The dotted path of the current heading, counters joined with dots.
    pub fn repr(&self) -> (r: String)
        ensures
            r@ == repr_spec(self@.counters),
    {
        let mut out = String::new();
        let mut i: usize = 0;
        proof {
            assert(repr_spec(self@.counters.take(0)) =~= Seq::<char>::empty());
            assert(out@ =~= repr_spec(self@.counters.take(0)));
        }
        while i < self.stack.len()
            invariant
                i <= self.stack@.len(),
                out@ == repr_spec(self@.counters.take(i as int)),
            decreases self.stack@.len() - i,
        {
            if i > 0 {
                out.push('.');
            }
            crate::strutil::append_decimal(&mut out, self.stack[i]);
            proof {
                assert(self@.counters.take(i + 1).drop_last() =~= self@.counters.take(i as int));
                assert(self@.counters.take(i + 1).last() == self@.counters[i as int]);
                assert(out@ =~= repr_spec(self@.counters.take(i + 1)));
            }
            i = i + 1;
        }
        proof {
            assert(self@.counters.take(self.stack@.len() as int) =~= self@.counters);
        }
        out
    }

    /// The depth of the current heading: the number of open counters.
    pub fn effective_level(&self) -> (r: u8)
        requires
            head_wf(self@),
        ensures
            r == self@.counters.len(),
    {
        self.stack.len() as u8
    }

    /// Registers one heading start at the given nominal markup level.
    pub fn enter(&mut self, level: u8)
        requires
            head_wf(old(self)@),
        ensures
            final(self)@ == enter_spec(old(self)@, level),
            head_wf(final(self)@),
    {
        let level = if level == 0 {
            1
        } else {
            level
        };
        if self.current == 0 {
            self.floor = level;
            self.current = level;
            self.stack.push(1);
            proof {
                assert(self@.counters =~= seq![1u64]);
            }
            return;
        }
        let level = if level < self.floor {
            self.floor
        } else {
            level
        };
        if self.current > level {
            let mut k = self.current - level;
            proof {
                assert(self@.counters =~= old(self)@.counters.take(
                    old(self)@.counters.len() as int,
                ));
            }
            while k > 0
                invariant
                    head_wf(old(self)@),
                    self.floor == old(self).floor,
                    self.current == old(self).current,
                    k <= self.current - level,
                    level >= self.floor,
                    self.current > level,
                    self@.counters == old(self)@.counters.take(
                        old(self)@.counters.len() - ((self.current - level) - k),
                    ),
                decreases k,
            {
                let _ = self.stack.pop();
                k = k - 1;
                proof {
                    assert(self@.counters =~= old(self)@.counters.take(
                        old(self)@.counters.len() - ((self.current - level) - k),
                    ));
                }
            }
            let last = self.stack.pop();
            match last {
                Some(c) => {
                    let next = if c == u64::MAX {
                        c
                    } else {
                        c + 1
                    };
                    self.stack.push(next);
                },
                None => {},
            }
        } else if self.current == level {
            let last = self.stack.pop();
            match last {
                Some(c) => {
                    let next = if c == u64::MAX {
                        c
                    } else {
                        c + 1
                    };
                    self.stack.push(next);
                },
                None => {},
            }
        } else {
            let mut k = level - self.current;
            proof {
                assert(self@.counters =~= old(self)@.counters + ones(0));
            }
            while k > 0
                invariant
                    head_wf(old(self)@),
                    self.floor == old(self).floor,
                    self.current == old(self).current,
                    k <= level - self.current,
                    self.current < level,
                    self@.counters == old(self)@.counters + ones(
                        ((level - self.current) - k) as int,
                    ),
                decreases k,
            {
                self.stack.push(1);
                k = k - 1;
                proof {
                    assert(self@.counters =~= old(self)@.counters + ones(
                        ((level - self.current) - k) as int,
                    ));
                }
            }
        }
        self.current = level;
        proof {
            assert(self@.counters =~= enter_spec(old(self)@, level).counters);
        }
    }
}

} // verus!
