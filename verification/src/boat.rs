//! Events recorded by the Boat emulator in its JSON-lines trace log.
use vstd::prelude::*;
use crate::text::{decimal_text, hex_text, push_decimal, push_hex};

verus! {

/// A whole trace: the events in the order they were recorded.
pub type BoatLog = Vec<BoatEvent>;

/// One line of the trace log: the event sits under the `fields` key.
#[derive(Debug)]
pub struct BoatLogLine {
    pub fields: BoatEvent,
}

/// An event recorded by the emulator.
#[derive(Debug)]
#[allow(inconsistent_fields)]
pub enum BoatEvent {
    PhysicalMemory { action: String, bytes: u8, address: u64 },
    ArchState { action: String, pc: u64, reg_idx: u8, data: u64 },
    InstructionFetch { data: u32 },
    ResetVector { new_addr: u64 },
}

/// How an architectural state change is shown:
/// `PC=<pc> <action> to register [x<index>] with [<data>]`, the numbers in
/// `{:#018x}` form but for the register index, which is decimal.
pub open spec fn arch_state_text(action: Seq<char>, pc: u64, reg_idx: u8, data: u64) -> Seq<char> {
    "PC="@ + hex_text(pc) + " "@ + action + " to register [x"@ + decimal_text(reg_idx as nat) + "] with ["@
        + hex_text(data) + "]"@
}

impl BoatEvent {
    /// The address the emulator reset to, if this is a reset event.
    pub open spec fn spec_reset_vector(&self) -> Option<u64> {
        match self {
            BoatEvent::ResetVector { new_addr } => Some(*new_addr),
            _ => None,
        }
    }

    pub fn get_reset_vector(&self) -> (r: Option<u64>)
        ensures
            r == self.spec_reset_vector(),
    {
        match self {
            BoatEvent::ResetVector { new_addr } => Some(*new_addr),
            _ => None,
        }
    }

    /// The text of an architectural state change; other events have none
    /// here and are shown in their debug form.
    pub fn display_text(&self) -> (r: Option<String>)
        ensures
            match self {
                BoatEvent::ArchState { action, pc, reg_idx, data } =>
                    r matches Some(s) && s@ == arch_state_text(action@, *pc, *reg_idx, *data),
                _ => r is None,
            },
    {
        match self {
            BoatEvent::ArchState { action, pc, reg_idx, data } => {
                let mut s = String::from_str("PC=");
                push_hex(&mut s, *pc);
                s.append(" ");
                s.append(action.as_str());
                s.append(" to register [x");
                push_decimal(&mut s, *reg_idx as u64);
                s.append("] with [");
                push_hex(&mut s, *data);
                s.append("]");
                assert(s@ =~= arch_state_text(action@, *pc, *reg_idx, *data));
                Some(s)
            },
            _ => None,
        }
    }
}

/// The index of the first newline in `s` from `i` on, or `s.len()`.
pub open spec fn next_newline(s: Seq<u8>, i: int) -> int
    decreases s.len() - i,
{
    if i >= s.len() {
        s.len() as int
    } else if s[i] == 10 {
        i
    } else {
        next_newline(s, i + 1)
    }
}

/// The line of `s` that starts at `start` and ends before `end`: a carriage
/// return before the line's newline is not part of it.
pub open spec fn line_text(s: Seq<u8>, start: int, end: int) -> Seq<u8> {
    if end < s.len() && end > start && s[end - 1] == 13 {
        s.subrange(start, end - 1)
    } else {
        s.subrange(start, end)
    }
}

/// The lines of `s` from `start` on, as `str::lines` splits text: at `\n`
/// or `\r\n`, with no empty line after a final line ending.
pub open spec fn lines_from(s: Seq<u8>, start: int) -> Seq<Seq<u8>>
    decreases s.len() + 1 - start,
{
    if start >= s.len() || start < 0 {
        Seq::empty()
    } else {
        let end = next_newline(s, start);
        proof {
            lemma_next_newline_bounds(s, start);
        }
        seq![line_text(s, start, end)] + lines_from(s, end + 1)
    }
}

pub proof fn lemma_next_newline_bounds(s: Seq<u8>, i: int)
    requires
        0 <= i <= s.len(),
    ensures
        i <= next_newline(s, i) <= s.len(),
        next_newline(s, i) < s.len() ==> s[next_newline(s, i)] == 10,
        forall|j: int| i <= j < next_newline(s, i) ==> s[j] != 10,
    decreases s.len() - i,
{
    if i < s.len() && s[i] != 10 {
        lemma_next_newline_bounds(s, i + 1);
    }
}

/// The lines joined back together, each followed by a newline.
pub open spec fn join_lines(lines: Seq<Seq<u8>>) -> Seq<u8>
    decreases lines.len(),
{
    if lines.len() == 0 {
        Seq::empty()
    } else {
        lines[0] + seq![10u8] + join_lines(lines.drop_first())
    }
}

proof fn lemma_join_lines_from(s: Seq<u8>, start: int)
    requires
        0 <= start <= s.len(),
        forall|j: int| 0 <= j < s.len() ==> #[trigger] s[j] != 13,
    ensures
        join_lines(lines_from(s, start)) == if start == s.len() || s.last() == 10 {
            s.subrange(start, s.len() as int)
        } else {
            s.subrange(start, s.len() as int).push(10)
        },
        forall|k: int| 0 <= k < lines_from(s, start).len() ==> forall|j: int|
            0 <= j < (#[trigger] lines_from(s, start)[k]).len() ==> lines_from(s, start)[k][j] != 10,
    decreases s.len() - start,
{
    if start < s.len() {
        lemma_next_newline_bounds(s, start);
        let end = next_newline(s, start);
        let line = s.subrange(start, end);
        assert(line_text(s, start, end) == line);
        let rest = lines_from(s, end + 1);
        let all = lines_from(s, start);
        assert(all == seq![line] + rest);
        assert(all[0] == line);
        assert(all.drop_first() =~= rest);
        if end < s.len() {
            lemma_join_lines_from(s, end + 1);
            if end + 1 == s.len() {
                assert(s.last() == 10);
            }
            assert(join_lines(all) =~= if s.last() == 10 {
                s.subrange(start, s.len() as int)
            } else {
                s.subrange(start, s.len() as int).push(10)
            });
        } else {
            assert(rest.len() == 0);
            assert(join_lines(rest) =~= Seq::<u8>::empty());
            assert(join_lines(all) == line + seq![10u8] + join_lines(rest));
            assert(s.last() != 10) by {
                assert(s[s.len() - 1] != 10);
            }
            assert(join_lines(all) =~= s.subrange(start, s.len() as int).push(10));
        }
        assert forall|k: int| 0 <= k < all.len() implies forall|j: int|
            0 <= j < (#[trigger] all[k]).len() ==> all[k][j] != 10 by {
            if k == 0 {
                assert forall|j: int| 0 <= j < all[k].len() implies all[k][j] != 10 by {
                    assert(all[k][j] == s[start + j]);
                }
            } else {
                assert(all[k] == rest[k - 1]);
                if end < s.len() {
                    lemma_join_lines_from(s, end + 1);
                }
            }
        }
    }
}

/// Splitting loses nothing: for a log without carriage returns, the lines
/// joined back with a newline after each give back the whole log, with a
/// newline added after a last line that had none; and no line holds a
/// newline.
pub proof fn lemma_lines_join_back(s: Seq<u8>)
    requires
        forall|j: int| 0 <= j < s.len() ==> #[trigger] s[j] != 13,
    ensures
        join_lines(lines_from(s, 0)) == if s.len() == 0 || s.last() == 10 { s } else { s.push(10) },
        forall|k: int| 0 <= k < lines_from(s, 0).len() ==> forall|j: int|
            0 <= j < (#[trigger] lines_from(s, 0)[k]).len() ==> lines_from(s, 0)[k][j] != 10,
{
    lemma_join_lines_from(s, 0);
    assert(s.subrange(0, s.len() as int) =~= s);
}

/// Splits the raw trace log into its lines, each to be read as one
/// `BoatLogLine`.
pub fn split_log_lines(raw: &[u8]) -> (lines: Vec<Vec<u8>>)
    ensures
        lines@.len() == lines_from(raw@, 0).len(),
        forall|i: int| 0 <= i < lines@.len() ==> #[trigger] lines@[i]@ == lines_from(raw@, 0)[i],
{
    let len = raw.len();
    let mut lines: Vec<Vec<u8>> = Vec::new();
    let mut start: usize = 0;
    while start < len
        invariant
            len == raw@.len(),
            start <= len,
            lines_from(raw@, 0) == lines@.map_values(|l: Vec<u8>| l@) + lines_from(raw@, start as int),
        decreases len - start,
    {
        let mut end = start;
        while end < len && raw[end] != 10
            invariant
                start <= end <= len,
                len == raw@.len(),
                next_newline(raw@, start as int) == next_newline(raw@, end as int),
            decreases len - end,
        {
            end = end + 1;
        }
        proof {
            lemma_next_newline_bounds(raw@, start as int);
        }
        let line_end = if end < len && end > start && raw[end - 1] == 13 { end - 1 } else { end };
        let mut line: Vec<u8> = Vec::new();
        let mut i = start;
        while i < line_end
            invariant
                start <= i <= line_end <= len,
                len == raw@.len(),
                line@ == raw@.subrange(start as int, i as int),
            decreases line_end - i,
        {
            line.push(raw[i]);
            i = i + 1;
            assert(line@ =~= raw@.subrange(start as int, i as int));
        }
        assert(line@ == line_text(raw@, start as int, end as int));
        let ghost before = lines@;
        lines.push(line);
        assert(lines@.map_values(|l: Vec<u8>| l@) =~= before.map_values(|l: Vec<u8>| l@).push(
            line_text(raw@, start as int, end as int),
        ));
        if end == len {
            start = len;
            assert(lines_from(raw@, (end + 1) as int) == Seq::<Seq<u8>>::empty());
        } else {
            start = end + 1;
        }
    }
    assert(lines@.map_values(|l: Vec<u8>| l@) =~= lines_from(raw@, 0));
    lines
}

} // verus!
