//! The generation log: the scores of each generation, in the order in which
//! they were recorded, and their rendering as lines of text.

use crate::path::{scores_of, Path};
use vstd::prelude::*;

verus! {

/// The ASCII codes that the text is made of.
pub const DIGIT_ZERO: u8 = 48;

pub const MINUS: u8 = 45;

pub const SPACE: u8 = 32;

pub const NEWLINE: u8 = 10;

/// The decimal digits of `n` in ASCII, most significant first, without
/// leading zeros.
pub open spec fn digits(n: nat) -> Seq<u8>
    decreases n,
{
    if n < 10 {
        seq![(DIGIT_ZERO + n) as u8]
    } else {
        digits(n / 10).push((DIGIT_ZERO + n % 10) as u8)
    }
}

/// `v` in decimal: a minus sign where it is negative, then its digits.
pub open spec fn decimal(v: int) -> Seq<u8> {
    if v < 0 {
        seq![MINUS] + digits((-v) as nat)
    } else {
        digits(v as nat)
    }
}

/// The scores in decimal, one space between neighbours.
pub open spec fn joined(scores: Seq<i64>) -> Seq<u8>
    decreases scores.len(),
{
    if scores.len() == 0 {
        Seq::empty()
    } else if scores.len() == 1 {
        decimal(scores[0] as int)
    } else {
        joined(scores.drop_last()) + seq![SPACE] + decimal(scores.last() as int)
    }
}

/// One line for each record, in recorded order, each closed by a newline.
pub open spec fn rendered(records: Seq<Seq<i64>>) -> Seq<u8>
    decreases records.len(),
{
    if records.len() == 0 {
        Seq::empty()
    } else {
        rendered(records.drop_last()) + joined(records.last()) + seq![NEWLINE]
    }
}

/// The recorded score vectors of a run.
#[derive(Clone, Debug)]
pub struct Log {
    pub logs: Vec<Vec<i64>>,
}

/// Appends the digits of `n` to `out`.
fn push_digits(out: &mut Vec<u8>, n: u64)
    ensures
        final(out)@ == old(out)@ + digits(n as nat),
    decreases n,
{
    if n >= 10 {
        push_digits(out, n / 10);
    }
    let digit: u8 = (n % 10) as u8;
    out.push(DIGIT_ZERO + digit);
    assert(out@ =~= old(out)@ + digits(n as nat));
}

/// Appends `v` in decimal to `out`.
fn push_decimal(out: &mut Vec<u8>, v: i64)
    ensures
        final(out)@ == old(out)@ + decimal(v as int),
{
    if v < 0 {
        out.push(MINUS);
        let magnitude: i128 = -(v as i128);
        push_digits(out, magnitude as u64);
    } else {
        push_digits(out, v as u64);
    }
    assert(out@ =~= old(out)@ + decimal(v as int));
}

impl Log {
    /// The records as sequences of scores.
    pub open spec fn records(&self) -> Seq<Seq<i64>> {
        Seq::new(self.logs@.len(), |i: int| self.logs@[i]@)
    }

    /// A log without records.
    pub fn new() -> (log: Log)
        ensures
            log.records() == Seq::<Seq<i64>>::empty(),
    {
        let log = Log { logs: Vec::new() };
        assert(log.records() =~= Seq::<Seq<i64>>::empty());
        log
    }

    /// Records `v` after all earlier records.
    pub fn put(&mut self, v: Vec<i64>)
        ensures
            final(self).records() == old(self).records().push(v@),
    {
        self.logs.push(v);
        assert(self.records() =~= old(self).records().push(v@));
    }

    /// Records the scores of the paths `s`, one for each path, in their
    /// order.
    pub fn put_scores(&mut self, s: &Vec<Path>)
        ensures
            final(self).records() == old(self).records().push(scores_of(s@)),
    {
        let mut gen_scores: Vec<i64> = Vec::new();
        let mut i: usize = 0;
        while i < s.len()
            invariant
                i <= s.len(),
                gen_scores@.len() == i,
                forall|j: int| 0 <= j < i ==> gen_scores@[j] == s@[j].score,
            decreases s.len() - i,
        {
            gen_scores.push(s[i].score);
            i += 1;
        }
        assert(gen_scores@ =~= scores_of(s@));
        self.put(gen_scores);
    }

    /// The text of the log: one line for each record, the scores in decimal
    /// with one space between them.
    pub fn render(&self) -> (text: Vec<u8>)
        ensures
            text@ == rendered(self.records()),
    {
        let mut text: Vec<u8> = Vec::new();
        let mut i: usize = 0;
        while i < self.logs.len()
            invariant
                i <= self.logs.len(),
                text@ == rendered(self.records().take(i as int)),
            decreases self.logs.len() - i,
        {
            let record = &self.logs[i];
            let ghost line_start = text@;
            let mut k: usize = 0;
            while k < record.len()
                invariant
                    k <= record.len(),
                    text@ == line_start + joined(record@.take(k as int)),
                decreases record.len() - k,
            {
                if k > 0 {
                    text.push(SPACE);
                }
                push_decimal(&mut text, record[k]);
                proof {
                    let upto = record@.take(k + 1);
                    assert(upto.drop_last() =~= record@.take(k as int));
                    assert(upto.last() == record@[k as int]);
                    assert(text@ =~= line_start + joined(upto));
                }
                k += 1;
            }
            text.push(NEWLINE);
            proof {
                let upto = self.records().take(i + 1);
                assert(record@.take(record@.len() as int) =~= record@);
                assert(upto.drop_last() =~= self.records().take(i as int));
                assert(upto.last() == record@);
                assert(text@ =~= rendered(upto));
            }
            i += 1;
        }
        assert(self.records().take(self.logs@.len() as int) =~= self.records());
        text
    }
}

} // verus!
