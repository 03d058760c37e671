//! Reading the commit log that Spike writes with `--log-commits`.
//!
//! A commit line reads
//! `core   0: 3 0x0000000080000004 (0x02028593) x11 0x0000000080000040`:
//! the hart, the privilege level, the pc, the instruction word in brackets,
//! and then what the instruction committed: `x<n> <value>` for a register
//! write, `mem <address> <value>` for a memory write, `mem <address>` for a
//! memory read. Other committed state (floating-point and control registers)
//! is not compared and is passed over.
use vstd::prelude::*;
use crate::difftest::{SpikeCommit, SpikeEvent};
use crate::numbers::{parse_uint, parse_uint_spec};

verus! {

/// A space or a tab.
pub open spec fn is_blank(c: u8) -> bool {
    c == 32 || c == 9
}

/// The first index from `i` on that is not blank, or `s.len()`.
pub open spec fn skip_blanks(s: Seq<u8>, i: int) -> int
    decreases s.len() - i,
{
    if i < 0 || i >= s.len() {
        if i < 0 { 0 } else { s.len() as int }
    } else if is_blank(s[i]) {
        skip_blanks(s, i + 1)
    } else {
        i
    }
}

/// The first index from `i` on that is blank, or `s.len()`.
pub open spec fn token_end(s: Seq<u8>, i: int) -> int
    decreases s.len() - i,
{
    if i < 0 || i >= s.len() {
        if i < 0 { 0 } else { s.len() as int }
    } else if is_blank(s[i]) {
        i
    } else {
        token_end(s, i + 1)
    }
}

pub proof fn lemma_scan_bounds(s: Seq<u8>, i: int)
    requires
        0 <= i <= s.len(),
    ensures
        i <= skip_blanks(s, i) <= s.len(),
        i <= token_end(s, i) <= s.len(),
        skip_blanks(s, i) < s.len() ==> !is_blank(s[skip_blanks(s, i)]),
        forall|j: int| i <= j < skip_blanks(s, i) ==> is_blank(s[j]),
        forall|j: int| i <= j < token_end(s, i) ==> !is_blank(s[j]),
    decreases s.len() - i,
{
    if i < s.len() {
        lemma_scan_bounds(s, i + 1);
    }
}

/// The blank-separated words of `s` from index `i` on.
pub open spec fn tokens_from(s: Seq<u8>, i: int) -> Seq<Seq<u8>>
    decreases s.len() + 1 - i,
{
    if i < 0 || i > s.len() {
        Seq::empty()
    } else {
        let start = skip_blanks(s, i);
        proof {
            lemma_scan_bounds(s, i);
        }
        if start >= s.len() {
            Seq::empty()
        } else {
            let end = token_end(s, start);
            proof {
                lemma_scan_bounds(s, start + 1);
            }
            seq![s.subrange(start, end)] + tokens_from(s, end)
        }
    }
}

/// A `0x`-prefixed hexadecimal number.
pub open spec fn hex_token(t: Seq<u8>) -> Option<u64> {
    if t.len() >= 2 && t[0] == 48 && t[1] == 120 {
        match parse_uint_spec(t.subrange(2, t.len() as int), 16, u64::MAX as nat) {
            Ok(v) => Some(v as u64),
            Err(_) => None,
        }
    } else {
        None
    }
}

/// An integer register name `x<n>` with `n` below 32.
pub open spec fn register_token(t: Seq<u8>) -> Option<u8> {
    if t.len() >= 2 && t[0] == 120 {
        match parse_uint_spec(t.subrange(1, t.len() as int), 10, 31) {
            Ok(v) => Some(v as u8),
            Err(_) => None,
        }
    } else {
        None
    }
}

/// The word `mem`.
pub open spec fn is_mem_token(t: Seq<u8>) -> bool {
    t == seq![109u8, 101u8, 109u8]
}

/// The commit that the words at index `i` record, if any, and the index of
/// the words after them.
pub open spec fn commit_at(toks: Seq<Seq<u8>>, i: int) -> (Option<SpikeCommit>, int) {
    if is_mem_token(toks[i]) && i + 1 < toks.len() && hex_token(toks[i + 1]) is Some {
        let address = hex_token(toks[i + 1]).unwrap();
        if i + 2 < toks.len() && hex_token(toks[i + 2]) is Some {
            (Some(SpikeCommit::MemoryWrite { address, data: hex_token(toks[i + 2]).unwrap() }), i + 3)
        } else {
            (Some(SpikeCommit::MemoryRead { address }), i + 2)
        }
    } else if register_token(toks[i]) is Some && i + 1 < toks.len() && hex_token(toks[i + 1]) is Some {
        (Some(SpikeCommit::Register { idx: register_token(toks[i]).unwrap(), value: hex_token(toks[i + 1]).unwrap() }), i + 2)
    } else {
        (None, i + 1)
    }
}

/// The commits that the words from index `i` on record.
pub open spec fn commits_from(toks: Seq<Seq<u8>>, i: int) -> Seq<SpikeCommit>
    decreases toks.len() - i,
{
    if i < 0 || i >= toks.len() {
        Seq::empty()
    } else {
        let (c, next) = commit_at(toks, i);
        match c {
            Some(c) => seq![c] + commits_from(toks, next),
            None => commits_from(toks, next),
        }
    }
}

/// The words open a commit line: `core`, `<hart>:`, the privilege level,
/// the pc and the bracketed instruction word.
pub open spec fn is_commit_line(toks: Seq<Seq<u8>>) -> bool {
    &&& toks.len() >= 5
    &&& toks[0] == seq![99u8, 111u8, 114u8, 101u8]
    &&& toks[1].len() >= 2 && toks[1].last() == 58
    &&& parse_uint_spec(toks[2], 10, u64::MAX as nat) is Ok
    &&& hex_token(toks[3]) is Some
    &&& toks[4].len() >= 2 && toks[4][0] == 40 && toks[4].last() == 41
}

/// The pc and commits of a commit line; other lines give nothing.
pub open spec fn commit_line_event(line: Seq<u8>) -> Option<(u64, Seq<SpikeCommit>)> {
    let toks = tokens_from(line, 0);
    if is_commit_line(toks) {
        Some((hex_token(toks[3]).unwrap(), commits_from(toks, 5)))
    } else {
        None
    }
}

fn split_tokens(line: &[u8]) -> (toks: Vec<Vec<u8>>)
    ensures
        toks@.map_values(|t: Vec<u8>| t@) == tokens_from(line@, 0),
{
    let len = line.len();
    let mut toks: Vec<Vec<u8>> = Vec::new();
    let mut i: usize = 0;
    while i < len
        invariant
            i <= len,
            len == line@.len(),
            tokens_from(line@, 0) == toks@.map_values(|t: Vec<u8>| t@) + tokens_from(line@, i as int),
        decreases len - i,
    {
        let mut start = i;
        while start < len && (line[start] == 32 || line[start] == 9)
            invariant
                i <= start <= len,
                len == line@.len(),
                skip_blanks(line@, i as int) == skip_blanks(line@, start as int),
            decreases len - start,
        {
            start = start + 1;
        }
        if start == len {
            i = len;
            assert(tokens_from(line@, len as int) == Seq::<Seq<u8>>::empty());
        } else {
            let mut end = start;
            while end < len && line[end] != 32 && line[end] != 9
                invariant
                    start <= end <= len,
                    len == line@.len(),
                    token_end(line@, start as int) == token_end(line@, end as int),
                decreases len - end,
            {
                end = end + 1;
            }
            proof {
                lemma_scan_bounds(line@, i as int);
                lemma_scan_bounds(line@, start as int);
            }
            let mut tok: Vec<u8> = Vec::new();
            let mut j = start;
            while j < end
                invariant
                    start <= j <= end <= len,
                    len == line@.len(),
                    tok@ == line@.subrange(start as int, j as int),
                decreases end - j,
            {
                tok.push(line[j]);
                j = j + 1;
                assert(tok@ =~= line@.subrange(start as int, j as int));
            }
            let ghost before = toks@;
            toks.push(tok);
            assert(toks@.map_values(|t: Vec<u8>| t@) =~= before.map_values(|t: Vec<u8>| t@).push(
                line@.subrange(start as int, end as int),
            ));
            i = end;
        }
    }
    assert(tokens_from(line@, len as int) == Seq::<Seq<u8>>::empty()) by {
        lemma_scan_bounds(line@, len as int);
    }
    assert(toks@.map_values(|t: Vec<u8>| t@) =~= tokens_from(line@, 0));
    toks
}

fn hex_token_exec(t: &Vec<u8>) -> (r: Option<u64>)
    ensures
        r == hex_token(t@),
{
    if t.len() >= 2 && t[0] == 48 && t[1] == 120 {
        match parse_uint(t.as_slice(), 2, 16, u64::MAX) {
            Ok(v) => Some(v),
            Err(_) => None,
        }
    } else {
        None
    }
}

fn register_token_exec(t: &Vec<u8>) -> (r: Option<u8>)
    ensures
        r == register_token(t@),
{
    if t.len() >= 2 && t[0] == 120 {
        match parse_uint(t.as_slice(), 1, 10, 31) {
            Ok(v) => Some(v as u8),
            Err(_) => None,
        }
    } else {
        None
    }
}

fn commit_at_exec(toks: &Vec<Vec<u8>>, i: usize) -> (r: (Option<SpikeCommit>, usize))
    requires
        i < toks@.len(),
    ensures
        r.0 == commit_at(toks@.map_values(|v: Vec<u8>| v@), i as int).0,
        r.1 == commit_at(toks@.map_values(|v: Vec<u8>| v@), i as int).1,
{
    let ghost t = toks@.map_values(|v: Vec<u8>| v@);
    let n = toks.len();
    assert(t[i as int] == toks@[i as int]@);
    if n - i > 1 {
        assert(t[i + 1] == toks@[i + 1]@);
    }
    if n - i > 2 {
        assert(t[i + 2] == toks@[i + 2]@);
    }
    let is_mem = toks[i].len() == 3 && toks[i][0] == 109 && toks[i][1] == 101 && toks[i][2] == 109;
    assert(is_mem <==> is_mem_token(t[i as int])) by {
        if is_mem_token(t[i as int]) {
            assert(t[i as int].len() == 3);
        }
        if is_mem {
            assert(t[i as int] =~= seq![109u8, 101u8, 109u8]);
        }
    }
    let address = if is_mem && n - i > 1 { hex_token_exec(&toks[i + 1]) } else { None };
    if let Some(address) = address {
        let data = if n - i > 2 { hex_token_exec(&toks[i + 2]) } else { None };
        match data {
            Some(data) => (Some(SpikeCommit::MemoryWrite { address, data }), i + 3),
            None => (Some(SpikeCommit::MemoryRead { address }), i + 2),
        }
    } else {
        let reg = register_token_exec(&toks[i]);
        let value = if reg.is_some() && n - i > 1 { hex_token_exec(&toks[i + 1]) } else { None };
        match (reg, value) {
            (Some(idx), Some(value)) => (Some(SpikeCommit::Register { idx, value }), i + 2),
            _ => (None, i + 1),
        }
    }
}

/// Reads one line of Spike's commit log; lines that record no commit,
/// such as disassembly lines, give `None`.
pub fn parse_commit_line(line: &[u8]) -> (r: Option<SpikeEvent>)
    ensures
        match commit_line_event(line@) {
            Some((pc, commits)) => r matches Some(e) && e.pc == pc && e.commits@ == commits,
            None => r is None,
        },
{
    let toks = split_tokens(line);
    let ghost t = toks@.map_values(|v: Vec<u8>| v@);
    let n = toks.len();
    assert(n == t.len());
    if n < 5 {
        return None;
    }
    assert(t[0] == toks@[0]@ && t[1] == toks@[1]@ && t[2] == toks@[2]@ && t[3] == toks@[3]@ && t[4] == toks@[4]@);
    let core_ok = toks[0].len() == 4 && toks[0][0] == 99 && toks[0][1] == 111 && toks[0][2] == 114 && toks[0][3] == 101;
    assert(core_ok <==> t[0] == seq![99u8, 111u8, 114u8, 101u8]) by {
        if t[0] =~= seq![99u8, 111u8, 114u8, 101u8] {}
    }
    let hart = &toks[1];
    let hart_ok = hart.len() >= 2 && hart[hart.len() - 1] == 58;
    let level_ok = parse_uint(toks[2].as_slice(), 0, 10, u64::MAX).is_ok();
    assert(toks[2]@.subrange(0, toks[2]@.len() as int) =~= toks[2]@);
    let insn = &toks[4];
    let insn_ok = insn.len() >= 2 && insn[0] == 40 && insn[insn.len() - 1] == 41;
    let pc = hex_token_exec(&toks[3]);
    if !(core_ok && hart_ok && level_ok && insn_ok) || pc.is_none() {
        return None;
    }
    let pc = pc.unwrap();
    let mut commits: Vec<SpikeCommit> = Vec::new();
    let mut i: usize = 5;
    while i < n
        invariant
            5 <= i <= n,
            n == toks@.len(),
            t == toks@.map_values(|v: Vec<u8>| v@),
            commits_from(t, 5) == commits@ + commits_from(t, i as int),
        decreases n - i,
    {
        let ghost before = commits@;
        let (c, next) = commit_at_exec(&toks, i);
        match c {
            Some(c) => commits.push(c),
            None => {},
        }
        assert(commits@ + commits_from(t, next as int) =~= before + commits_from(t, i as int));
        i = next;
    }
    assert(commits@ + commits_from(t, n as int) =~= commits@);
    Some(SpikeEvent { pc, commits })
}

} // verus!
