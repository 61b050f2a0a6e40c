//! Scheduler statistics of a thread from `/proc/<tid>/schedstat`.
use vstd::prelude::*;

use crate::futex::is_u64;
use crate::pieces::{comma, newline, push_comma, push_newline};
use crate::render::{append, dec_text, render_dec};
use crate::text::{dec_value, parse_dec, views, words, words_spec};

verus! {

/// One sample of `/proc/<tid>/schedstat`: time on the CPU, time waiting on a run queue,
/// and the number of run periods, taken at `epoch` (milliseconds since the epoch).
#[derive(Debug, PartialEq, Eq, Clone, Copy)]
pub struct SchedStatSample {
    pub epoch: u128,
    pub runtime: u64,
    pub rq_time: u64,
    pub run_periods: u64,
}

/// The header of a schedstat data file.
pub open spec fn schedstat_header() -> Seq<u8> {
    seq![101u8, 112, 111, 99, 104, 95, 109, 115, 44, 114, 117, 110, 116, 105, 109, 101, 44, 114, 113, 95, 116, 105, 109, 101, 44, 114, 117, 110, 95, 112, 101, 114, 105, 111, 100, 115, 10]
}

impl SchedStatSample {
    /// Reads the three whitespace-separated numbers of a schedstat file taken at `epoch`.
    pub fn parse(content: &[u8], epoch: u128) -> (r: Option<Self>)
        ensures
            ({
                let w = words_spec(content@);
                if w.len() >= 3 && is_u64(w[0]) && is_u64(w[1]) && is_u64(w[2]) {
                    r == Some(SchedStatSample {
                        epoch,
                        runtime: dec_value(w[0]) as u64,
                        rq_time: dec_value(w[1]) as u64,
                        run_periods: dec_value(w[2]) as u64,
                    })
                } else {
                    r is None
                }
            }),
    {
        let w = words(content);
        assert(w@.len() == views(w@).len());
        if w.len() < 3 {
            return None;
        }
        let runtime = match parse_dec(w[0].as_slice()) { Some(x) => x, None => return None };
        let rq_time = match parse_dec(w[1].as_slice()) { Some(x) => x, None => return None };
        let run_periods = match parse_dec(w[2].as_slice()) { Some(x) => x, None => return None };
        Some(SchedStatSample { epoch, runtime, rq_time, run_periods })
    }

    /// `epoch,runtime,rq_time,run_periods\n`.
    pub fn to_csv_row(&self) -> (r: Vec<u8>)
        ensures
            r@ == dec_text(self.epoch as nat) + comma() + dec_text(self.runtime as nat) + comma() + dec_text(self.rq_time as nat) + comma()
                + dec_text(self.run_periods as nat) + newline(),
    {
        let mut v = render_dec(self.epoch);
        push_comma(&mut v);
        append(&mut v, render_dec(self.runtime as u128).as_slice());
        push_comma(&mut v);
        append(&mut v, render_dec(self.rq_time as u128).as_slice());
        push_comma(&mut v);
        append(&mut v, render_dec(self.run_periods as u128).as_slice());
        push_newline(&mut v);
        v
    }

    /// The header of the data file.
    pub fn csv_headers() -> (r: Vec<u8>)
        ensures
            r@ == schedstat_header(),
    {
        let mut v: Vec<u8> = Vec::new();
        append(&mut v, &[101u8, 112, 111, 99, 104, 95, 109, 115, 44, 114, 117, 110, 116, 105, 109, 101, 44, 114, 113, 95, 116, 105, 109, 101, 44, 114, 117, 110, 95, 112, 101, 114, 105, 111, 100, 115, 10]);
        v
    }

    /// The start, in milliseconds since the epoch, of the day holding `epoch`: the name of
    /// the data file.
    pub fn day_epoch(&self) -> (r: u128)
        ensures
            r == (self.epoch / 86_400_000) * 86_400_000,
    {
        (self.epoch / 86_400_000) * 86_400_000
    }
}

} // verus!
