use vstd::prelude::*;
use crate::decode::decode_line;
use crate::decode::record_of;
use crate::stats::Stats;
use crate::stats::StatsModel;
use crate::stats::stats_wf;
use crate::stats::spec_apply_record;
use crate::stats::spec_note_parse_error;
use crate::tail::TailState;
use crate::tail::tail_wf;
use crate::tail::spec_consume;

verus! {

/// One line as the tail reader hands it on: its text, or the mark of a line
/// that could not be read at all (an I/O failure or bytes that are not
/// text).
pub enum LineInput {
    Text(String),
    Unreadable,
}

/// What one line does to the store: an unreadable line and a line that does
/// not decode count one parse error; a decoded record is folded in.
pub open spec fn spec_line_step(m: StatsModel, l: LineInput) -> StatsModel {
    match l {
        LineInput::Unreadable => spec_note_parse_error(m),
        LineInput::Text(s) => match record_of(s@) {
            Some(r) => spec_apply_record(m, r),
            None => spec_note_parse_error(m),
        },
    }
}

/// What a run of lines does to the store, first line first.
pub open spec fn spec_ingest(m: StatsModel, lines: Seq<LineInput>) -> StatsModel
    decreases lines.len(),
{
    if lines.len() == 0 {
        m
    } else {
        spec_line_step(spec_ingest(m, lines.drop_last()), lines.last())
    }
}

/// A pass over no lines leaves the store exactly as it was: together with
/// the tail reader's idle poll, an unchanged file changes nothing.
pub proof fn lemma_ingest_nothing(m: StatsModel)
    ensures
        spec_ingest(m, Seq::<LineInput>::empty()) == m,
{
}

/// One ingestion pass over a freshly read file: account for every line as
/// consumed, then fold the lines not yet delivered — those from the
/// reader's next-unread index on — into the store. No failure stops the
/// pass: every line is either folded in or counted as a parse error.
pub fn ingest_lines(stats: &mut Stats, tail: &mut TailState, lines: &Vec<LineInput>)
    requires
        stats_wf(*old(stats)),
        tail_wf(*old(tail)),
    ensures
        stats_wf(*final(stats)),
        tail_wf(*final(tail)),
        *final(tail) == spec_consume(*old(tail), lines@.len() as usize).0,
        final(stats)@ == spec_ingest(
            old(stats)@,
            lines@.skip(spec_consume(*old(tail), lines@.len() as usize).1),
        ),
{
    let ghost m0 = stats@;
    let n: usize = lines.len();
    let start: usize = tail.consume(n);
    proof {
        assert(lines@.subrange(start as int, start as int) =~= Seq::<LineInput>::empty());
    }
    let mut i: usize = start;
    while i < n
        invariant
            start <= i && i <= n,
            n == lines@.len(),
            stats_wf(*stats),
            stats@ == spec_ingest(m0, lines@.subrange(start as int, i as int)),
        decreases n - i,
    {
        let ghost prev = stats@;
        match &lines[i] {
            LineInput::Text(s) => {
                match decode_line(s.as_str()) {
                    Ok(rec) => {
                        stats.record(&rec);
                    },
                    Err(_) => {
                        stats.record_parse_error();
                    },
                }
            },
            LineInput::Unreadable => {
                stats.record_parse_error();
            },
        }
        proof {
            assert(stats@ == spec_line_step(prev, lines@[i as int]));
            assert(lines@.subrange(start as int, i as int + 1).drop_last() =~= lines@.subrange(
                start as int,
                i as int,
            ));
            assert(lines@.subrange(start as int, i as int + 1).last() == lines@[i as int]);
        }
        i = i + 1;
    }
    proof {
        assert(lines@.subrange(start as int, n as int) =~= lines@.skip(start as int));
    }
}

} // verus!
