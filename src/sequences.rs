use vstd::prelude::*;

use crate::error::DecodeError;

verus! {

/// One instruction of a block: emit literals, then copy from earlier output.
#[derive(Debug, Clone, Copy, PartialEq, Eq, Structural)]
pub struct Sequence {
    pub literal_length: u64,
    pub match_length: u64,
    /// Distance back from the end of the output where the copy starts.
    pub offset: u64,
}

/// `out` extended by `n` bytes, each copied from `offset` bytes before the end at
/// the time it is appended, so that a copy may overlap what it produces.
pub open spec fn copy_match(out: Seq<u8>, offset: nat, n: nat) -> Seq<u8>
    decreases n,
{
    if n == 0 {
        out
    } else {
        copy_match(out.push(out[out.len() - offset]), offset, (n - 1) as nat)
    }
}

/// The output after replaying `seqs[i..]` on `out`, with the literals from
/// `lit_pos` on still pending; the literals left over at the end are appended.
pub open spec fn run_sequences(
    out: Seq<u8>,
    lits: Seq<u8>,
    lit_pos: nat,
    seqs: Seq<Sequence>,
    i: nat,
) -> Result<Seq<u8>, DecodeError>
    decreases seqs.len() - i,
{
    if i >= seqs.len() {
        if lit_pos <= lits.len() {
            Ok(out + lits.subrange(lit_pos as int, lits.len() as int))
        } else {
            Err(DecodeError::TruncatedInput)
        }
    } else {
        let sq = seqs[i as int];
        let ll = sq.literal_length as nat;
        if lit_pos + ll > lits.len() {
            Err(DecodeError::TruncatedInput)
        } else {
            let out1 = out + lits.subrange(lit_pos as int, (lit_pos + ll) as int);
            if sq.offset == 0 || sq.offset > out1.len() {
                Err(DecodeError::CorruptedOffset)
            } else {
                run_sequences(
                    copy_match(out1, sq.offset as nat, sq.match_length as nat),
                    lits,
                    lit_pos + ll,
                    seqs,
                    i + 1,
                )
            }
        }
    }
}

/// The bytes that `seqs` rebuild from `lits`, or the error that stops them.
pub open spec fn spec_execute(lits: Seq<u8>, seqs: Seq<Sequence>) -> Result<Seq<u8>, DecodeError> {
    run_sequences(Seq::empty(), lits, 0, seqs, 0)
}

/// A back-reference that reaches before the start of the output ends the replay
/// with `CorruptedOffset`: once sequence `i` is reached with `out` rebuilt and its
/// literals pending, an offset (zero, or) larger than `out` plus those literals
/// fails, whatever the later sequences hold.
pub proof fn lemma_offset_past_output(
    out: Seq<u8>,
    lits: Seq<u8>,
    lit_pos: nat,
    seqs: Seq<Sequence>,
    i: nat,
)
    requires
        i < seqs.len(),
        lit_pos + seqs[i as int].literal_length <= lits.len(),
        seqs[i as int].offset == 0 || seqs[i as int].offset > out.len()
            + seqs[i as int].literal_length,
    ensures
        run_sequences(out, lits, lit_pos, seqs, i) == Err::<Seq<u8>, DecodeError>(
            DecodeError::CorruptedOffset,
        ),
{
}

/// Appends `n` bytes copied from `offset` bytes back, one at a time.
fn append_match(out: &mut Vec<u8>, offset: usize, n: u64)
    requires
        0 < offset <= old(out).len(),
    ensures
        final(out)@ == copy_match(old(out)@, offset as nat, n as nat),
{
    let ghost target = copy_match(old(out)@, offset as nat, n as nat);
    let mut k: u64 = 0;
    while k < n
        invariant
            0 < offset <= out.len(),
            k <= n,
            copy_match(out@, offset as nat, (n - k) as nat) == target,
        decreases n - k,
    {
        let b = out[out.len() - offset];
        out.push(b);
        k = k + 1;
    }
}

/// Replays `seqs` in order onto the output `out` already holds.
pub fn execute_sequences_onto(out: &mut Vec<u8>, lits: &Vec<u8>, seqs: &Vec<Sequence>) -> (r: Result<
    (),
    DecodeError,
>)
    ensures
        match r {
            Ok(_) => run_sequences(old(out)@, lits@, 0, seqs@, 0) == Ok::<Seq<u8>, DecodeError>(
                final(out)@,
            ),
            Err(e) => run_sequences(old(out)@, lits@, 0, seqs@, 0) == Err::<Seq<u8>, DecodeError>(
                e,
            ),
        },
{
    let ghost target = run_sequences(old(out)@, lits@, 0, seqs@, 0);
    let mut lit_pos: usize = 0;
    let mut i: usize = 0;
    while i < seqs.len()
        invariant
            i <= seqs.len(),
            lit_pos <= lits.len(),
            run_sequences(out@, lits@, lit_pos as nat, seqs@, i as nat) == target,
            target == run_sequences(old(out)@, lits@, 0, seqs@, 0),
        decreases seqs.len() - i,
    {
        let sq = seqs[i];
        if sq.literal_length > (lits.len() - lit_pos) as u64 {
            return Err(DecodeError::TruncatedInput);
        }
        let end = lit_pos + sq.literal_length as usize;
        let ghost before = out@;
        let mut j: usize = lit_pos;
        while j < end
            invariant
                lit_pos <= j <= end <= lits.len(),
                out@ == before + lits@.subrange(lit_pos as int, j as int),
            decreases end - j,
        {
            out.push(lits[j]);
            j = j + 1;
            assert(out@ =~= before + lits@.subrange(lit_pos as int, j as int));
        }
        if sq.offset == 0 || sq.offset > out.len() as u64 {
            return Err(DecodeError::CorruptedOffset);
        }
        append_match(out, sq.offset as usize, sq.match_length);
        lit_pos = end;
        i = i + 1;
    }
    let ghost before = out@;
    let mut j: usize = lit_pos;
    while j < lits.len()
        invariant
            lit_pos <= j <= lits.len(),
            out@ == before + lits@.subrange(lit_pos as int, j as int),
            run_sequences(before, lits@, lit_pos as nat, seqs@, seqs@.len()) == target,
            target == run_sequences(old(out)@, lits@, 0, seqs@, 0),
        decreases lits.len() - j,
    {
        out.push(lits[j]);
        j = j + 1;
        assert(out@ =~= before + lits@.subrange(lit_pos as int, j as int));
    }
    Ok(())
}

/// Replays `seqs` in order against a growing output, starting from nothing.
pub fn execute_sequences(lits: &Vec<u8>, seqs: &Vec<Sequence>) -> (r: Result<Vec<u8>, DecodeError>)
    ensures
        match r {
            Ok(v) => spec_execute(lits@, seqs@) == Ok::<Seq<u8>, DecodeError>(v@),
            Err(e) => spec_execute(lits@, seqs@) == Err::<Seq<u8>, DecodeError>(e),
        },
{
    let mut out: Vec<u8> = Vec::new();
    match execute_sequences_onto(&mut out, lits, seqs) {
        Ok(_) => Ok(out),
        Err(e) => Err(e),
    }
}

} // verus!
