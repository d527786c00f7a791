use vstd::prelude::*;

use crate::bitstream::{bits_value, lemma_bits_value_bound, ForwardBitReader};
use crate::error::DecodeError;

verus! {

/// The largest accuracy log of a sequence decoding table.
pub const MAX_ACCURACY_LOG: u8 = 9;

/// One state of a decoding table: the symbol it emits, and how the next state is
/// formed from `nb_bits` fresh bits added to `baseline`.
#[derive(Debug, Clone, Copy, PartialEq, Eq, Structural)]
pub struct FseEntry {
    pub symbol: u8,
    pub nb_bits: u32,
    pub baseline: u32,
}

/// A decoding table of `2^accuracy_log` states.
#[derive(Debug, Clone, PartialEq, Eq)]
pub struct FseTable {
    pub accuracy_log: u8,
    pub entries: Vec<FseEntry>,
}

pub open spec fn two_pow(n: nat) -> nat
    decreases n,
{
    if n == 0 {
        1
    } else {
        2 * two_pow((n - 1) as nat)
    }
}

/// The number of table states a normalized count takes; "less than one" (-1)
/// takes one.
pub open spec fn weight(n: i16) -> int {
    if n == -1 {
        1
    } else {
        n as int
    }
}

pub open spec fn sum_weights(norm: Seq<i16>) -> int
    decreases norm.len(),
{
    if norm.len() == 0 {
        0
    } else {
        sum_weights(norm.drop_last()) + weight(norm.last())
    }
}

/// Whether `norm` is a distribution an accuracy log `al` table can be built from.
pub open spec fn valid_distribution(norm: Seq<i16>, al: u8) -> bool {
    &&& al <= MAX_ACCURACY_LOG
    &&& norm.len() <= 256
    &&& forall|i: int| 0 <= i < norm.len() ==> norm[i] >= -1
    &&& sum_weights(norm) == two_pow(al as nat)
}

/// How many entries of `es` emit `s`.
pub open spec fn count_sym(es: Seq<FseEntry>, s: u8) -> nat
    decreases es.len(),
{
    if es.len() == 0 {
        0
    } else {
        count_sym(es.drop_last(), s) + if es.last().symbol == s {
            1nat
        } else {
            0nat
        }
    }
}

/// `c` doubled until it reaches `size`.
pub open spec fn scaled(c: nat, size: nat) -> nat
    decreases if c < size {
        size - c
    } else {
        0
    },
{
    if c == 0 || c >= size {
        c
    } else {
        scaled(2 * c, size)
    }
}

/// How many doublings take `c` to `size` or beyond.
pub open spec fn doublings(c: nat, size: nat) -> nat
    decreases if c < size {
        size - c
    } else {
        0
    },
{
    if c == 0 || c >= size {
        0
    } else {
        1 + doublings(2 * c, size)
    }
}

/// What state `i` of the table `es` must hold: its counter is its symbol's weight
/// plus the symbol's earlier states; the fewest doublings that bring the counter
/// to the table size give the bit count, and what the doubled counter exceeds the
/// table size by is the baseline.
pub open spec fn entry_ok(norm: Seq<i16>, al: u8, es: Seq<FseEntry>, i: int) -> bool {
    let size = two_pow(al as nat);
    let e = es[i];
    let c = (weight(norm[e.symbol as int]) + count_sym(es.subrange(0, i), e.symbol)) as nat;
    &&& (e.symbol as int) < norm.len()
    &&& e.nb_bits == doublings(c, size)
    &&& e.baseline + size == scaled(c, size)
}

fn pow2_u32(al: u8) -> (r: u32)
    requires
        al <= MAX_ACCURACY_LOG,
    ensures
        r == two_pow(al as nat),
        1 <= r <= 512,
{
    proof {
        reveal_with_fuel(two_pow, 10);
    }
    let mut r: u32 = 1;
    let mut k: u8 = 0;
    while k < al
        invariant
            k <= al <= MAX_ACCURACY_LOG,
            r == two_pow(k as nat),
            1 <= r <= 512,
            k == 0 ==> r == 1,
            k == 1 ==> r == 2,
            k == 2 ==> r == 4,
            k == 3 ==> r == 8,
            k == 4 ==> r == 16,
            k == 5 ==> r == 32,
            k == 6 ==> r == 64,
            k == 7 ==> r == 128,
            k == 8 ==> r == 256,
            k == 9 ==> r == 512,
        decreases al - k,
    {
        assert(two_pow((k + 1) as nat) == 2 * two_pow(k as nat));
        r = r * 2;
        k = k + 1;
    }
    r
}

/// Builds the decoding table of the distribution `norm` with accuracy log `al`,
/// spreading each symbol's states over the table at a fixed stride and putting
/// the "less than one" symbols at its top.
pub fn build_fse_table(norm: &Vec<i16>, al: u8) -> (r: Result<FseTable, DecodeError>)
    ensures
        !valid_distribution(norm@, al) ==> r == Err::<FseTable, DecodeError>(
            DecodeError::FseTableOverflow,
        ),
        r is Ok ==> ({
            let t = r->Ok_0;
            &&& valid_distribution(norm@, al)
            &&& t.accuracy_log == al
            &&& t.entries@.len() == two_pow(al as nat)
            &&& forall|i: int|
                0 <= i < t.entries@.len() ==> #[trigger] entry_ok(norm@, al, t.entries@, i)
        }),
{
    if al > MAX_ACCURACY_LOG || norm.len() > 256 {
        return Err(DecodeError::FseTableOverflow);
    }
    let size = pow2_u32(al);
    let mut sum: i64 = 0;
    let mut i: usize = 0;
    while i < norm.len()
        invariant
            i <= norm.len() <= 256,
            forall|j: int| 0 <= j < i ==> norm@[j] >= -1,
            sum == sum_weights(norm@.subrange(0, i as int)),
            -1 * (i as int) <= sum <= 32767 * (i as int),
        decreases norm.len() - i,
    {
        let n = norm[i];
        if n < -1 {
            return Err(DecodeError::FseTableOverflow);
        }
        sum = sum + if n == -1 {
            1
        } else {
            n as i64
        };
        assert(norm@.subrange(0, i + 1).drop_last() =~= norm@.subrange(0, i as int));
        i = i + 1;
    }
    assert(norm@.subrange(0, norm.len() as int) =~= norm@);
    if sum != size as i64 {
        return Err(DecodeError::FseTableOverflow);
    }
    let n_sym = norm.len();
    assert(n_sym > 0);
    // Symbols of probability "less than one" take the top states, one each.
    let mut syms: Vec<u8> = Vec::new();
    let mut k: u32 = 0;
    while k < size
        invariant
            k <= size,
            syms@.len() == k,
            forall|j: int| 0 <= j < syms@.len() ==> (syms@[j] as int) < n_sym || n_sym == 0,
        decreases size - k,
    {
        syms.push(0);
        k = k + 1;
    }
    let mut high: u32 = size;
    let mut s: usize = 0;
    while s < n_sym
        invariant
            n_sym == norm@.len() <= 256,
            syms@.len() == size,
            high <= size,
            s <= n_sym,
            forall|j: int| 0 <= j < syms@.len() ==> (syms@[j] as int) < n_sym || n_sym == 0,
        decreases n_sym - s,
    {
        if norm[s] == -1 {
            if high == 0 {
                return Err(DecodeError::FseTableOverflow);
            }
            high = high - 1;
            syms.set(high as usize, s as u8);
        }
        s = s + 1;
    }
    // The others are spread at a fixed stride, skipping the top states.
    let step = size / 2 + size / 8 + 3;
    let mut pos: u32 = 0;
    let mut s: usize = 0;
    while s < n_sym
        invariant
            n_sym == norm@.len() <= 256,
            syms@.len() == size,
            size <= 512,
            high <= size,
            step <= 512,
            pos < size,
            s <= n_sym,
            n_sym > 0,
            forall|j: int| 0 <= j < syms@.len() ==> (syms@[j] as int) < n_sym,
        decreases n_sym - s,
    {
        let w = norm[s];
        let mut placed: i16 = 0;
        while placed < w
            invariant
                n_sym == norm@.len() <= 256,
                s < n_sym,
                n_sym > 0,
                syms@.len() == size,
                size <= 512,
                high <= size,
                step <= 512,
                pos < size,
                forall|j: int| 0 <= j < syms@.len() ==> (syms@[j] as int) < n_sym,
            decreases w - placed,
        {
            syms.set(pos as usize, s as u8);
            let mut found = false;
            let mut tries: u32 = 0;
            while !found && tries < size
                invariant
                    size <= 512,
                    step <= 512,
                    pos < size,
                    tries <= size,
                decreases size - tries, if found { 0int } else { 1int },
            {
                pos = (pos + step) % size;
                if pos < high {
                    found = true;
                }
                tries = tries + 1;
            }
            if !found {
                return Err(DecodeError::FseTableOverflow);
            }
            placed = placed + 1;
        }
        s = s + 1;
    }
    // Each state's counter starts at its symbol's weight and counts up.
    let mut next: Vec<u32> = Vec::new();
    let mut s: usize = 0;
    while s < n_sym
        invariant
            s <= n_sym == norm@.len() <= 256,
            next@.len() == s,
            forall|j: int| 0 <= j < s ==> next@[j] == weight(norm@[j]),
            forall|j: int| 0 <= j < n_sym ==> norm@[j] >= -1,
        decreases n_sym - s,
    {
        let n = norm[s];
        next.push(
            if n == -1 {
                1
            } else {
                n as u32
            },
        );
        s = s + 1;
    }
    let mut entries: Vec<FseEntry> = Vec::new();
    let mut i: usize = 0;
    while i < size as usize
        invariant
            i <= syms@.len() == size <= 512,
            n_sym == norm@.len() == next@.len() <= 256,
            forall|j: int| 0 <= j < syms@.len() ==> (syms@[j] as int) < n_sym,
            forall|j: int| 0 <= j < n_sym ==> norm@[j] >= -1,
            forall|t: int|
                0 <= t < n_sym ==> #[trigger] next@[t] == weight(norm@[t]) + count_sym(
                    entries@,
                    t as u8,
                ),
            forall|t: int| 0 <= t < n_sym ==> #[trigger] next@[t] <= 32767 + i,
            entries@.len() == i,
            forall|j: int| 0 <= j < i ==> #[trigger] entry_ok(norm@, al, entries@, j),
            size == two_pow(al as nat),
        decreases size - i,
    {
        let sym = syms[i];
        let c = next[sym as usize];
        let mut x: u32 = c;
        let mut nb: u32 = 0;
        while x != 0 && x < size
            invariant
                size <= 512,
                x <= 32767 + 512 + 512,
                nb < x || x == 0,
                doublings(x as nat, size as nat) + nb == doublings(c as nat, size as nat),
                scaled(x as nat, size as nat) == scaled(c as nat, size as nat),
            decreases if x < size {
                size - x
            } else {
                0
            },
        {
            x = x * 2;
            nb = nb + 1;
        }
        if x < size {
            return Err(DecodeError::FseTableOverflow);
        }
        let e = FseEntry { symbol: sym, nb_bits: nb, baseline: x - size };
        let ghost prev = entries@;
        entries.push(e);
        assert(entries@.subrange(0, i as int) =~= prev);
        assert(entries@.drop_last() =~= prev);
        assert forall|j: int| 0 <= j < i + 1 implies #[trigger] entry_ok(norm@, al, entries@, j) by {
            if j < i {
                assert(entries@.subrange(0, j) =~= prev.subrange(0, j));
                assert(entries@[j] == prev[j]);
                assert(entry_ok(norm@, al, prev, j));
            }
        }
        next.set(sym as usize, c + 1);
        assert forall|t: int| 0 <= t < n_sym implies #[trigger] next@[t] == weight(norm@[t])
            + count_sym(entries@, t as u8) by {
            assert(count_sym(entries@, t as u8) == count_sym(prev, t as u8) + if sym == t as u8 {
                1nat
            } else {
                0nat
            });
        }
        i = i + 1;
    }
    Ok(FseTable { accuracy_log: al, entries })
}

/// Reads the table description at `src[p..end]`: a 4-bit accuracy log (less
/// 5), then the normalized counts of symbols 0, 1, ... in variable-width fields,
/// a zero count being followed by 2-bit flags that repeat it, until the counts
/// fill the table. Builds the table and returns it with the number of bytes the
/// description took.
pub fn read_fse_description(src: &Vec<u8>, p: usize, end: usize, max_symbol: usize) -> (r: Result<
    (FseTable, usize),
    DecodeError,
>)
    requires
        p <= end <= src.len(),
        max_symbol < 256,
    ensures
        r is Ok ==> {
            let (t, used) = r->Ok_0;
            &&& p + used <= end
            &&& t.entries@.len() == two_pow(t.accuracy_log as nat)
            &&& t.accuracy_log <= MAX_ACCURACY_LOG
            &&& t.accuracy_log == bits_value(src@.subrange(p as int, end as int), 0, 4) + 5
            &&& exists|norm: Seq<i16>|
                #[trigger] valid_distribution(norm, t.accuracy_log) && forall|i: int|
                    0 <= i < t.entries@.len() ==> #[trigger] entry_ok(
                        norm,
                        t.accuracy_log,
                        t.entries@,
                        i,
                    )
        },
{
    let mut br = ForwardBitReader::new(src, p, end)?;
    let ghost sec = br.section(src@);
    let al_bits = br.read_bits(src, 4)?;
    proof {
        lemma_bits_value_bound(sec, 0, 4);
        reveal_with_fuel(two_pow, 5);
    }
    assert(al_bits == bits_value(sec, 0, 4));
    if al_bits + 5 > MAX_ACCURACY_LOG as u64 {
        return Err(DecodeError::FseTableOverflow);
    }
    let al = (al_bits + 5) as u8;
    let size = pow2_u32(al);
    let mut remaining: i64 = size as i64 + 1;
    let mut threshold: u64 = size as u64;
    let mut nb: u64 = al as u64 + 1;
    let mut norm: Vec<i16> = Vec::new();
    while remaining > 1 && norm.len() <= max_symbol
        invariant
            br.wf(src@),
            br.start == p && br.end == end,
            1 <= nb <= 10,
            1 <= threshold <= 512,
            1 <= remaining <= 513,
            max_symbol < 256,
            norm@.len() <= max_symbol + 1,
        decreases max_symbol + 1 - norm@.len(),
    {
        let max: i64 = 2 * threshold as i64 - 1 - remaining;
        if max < 0 {
            return Err(DecodeError::FseTableOverflow);
        }
        let low = br.read_bits(src, nb - 1)?;
        let count: i64 = if (low as i64) < max {
            low as i64
        } else {
            let extra = br.read_bits(src, 1)?;
            let full = if extra == 1 {
                low as i64 + threshold as i64
            } else {
                low as i64
            };
            if full >= threshold as i64 {
                full - max
            } else {
                full
            }
        };
        let c = count - 1;
        if c < -1 || c > 32767 {
            return Err(DecodeError::FseTableOverflow);
        }
        remaining = if c == -1 {
            remaining - 1
        } else {
            remaining - c
        };
        if remaining < 1 {
            return Err(DecodeError::FseTableOverflow);
        }
        norm.push(c as i16);
        let ghost len_before = norm@.len();
        if c == 0 {
            let mut more = true;
            while more
                invariant
                    br.wf(src@),
                    br.start == p && br.end == end,
                    norm@.len() <= 257,
                    norm@.len() >= len_before,
                    max_symbol < 256,
                decreases 8 * (br.end - br.start) - br.pos, if more { 1int } else { 0int },
            {
                let flag = br.read_bits(src, 2)?;
                let mut z: u64 = 0;
                while z < flag
                    invariant
                        z <= flag,
                        norm@.len() <= 257 + z,
                        norm@.len() >= len_before,
                    decreases flag - z,
                {
                    norm.push(0);
                    z = z + 1;
                }
                if norm.len() > max_symbol + 1 {
                    return Err(DecodeError::FseTableOverflow);
                }
                more = flag == 3;
            }
        }
        if norm.len() > max_symbol + 1 {
            return Err(DecodeError::FseTableOverflow);
        }
        while (remaining as u64) < threshold && nb > 1
            invariant
                1 <= nb <= 10,
                1 <= threshold <= 512,
                1 <= remaining <= 513,
            decreases nb,
        {
            nb = nb - 1;
            threshold = threshold / 2;
            if threshold == 0 {
                threshold = 1;
            }
        }
    }
    if remaining != 1 {
        return Err(DecodeError::FseTableOverflow);
    }
    let used = br.bytes_used();
    let t = build_fse_table(&norm, al)?;
    assert(valid_distribution(norm@, t.accuracy_log));
    Ok((t, used))
}

} // verus!
