//! The end of an `.xz` stream: an index that lists the blocks in front of it, and
//! a footer that repeats the size of the index.
//!
//! The footer holds that size in units of four octets and less one. A footer
//! that holds the largest number of 32 bits stands for a size that does not fit,
//! so it never belongs to a valid stream.

use vstd::prelude::*;

verus! {

/// The length of what stands in front of the first block.
pub const HEADER_LEN: usize = 12;

/// How many octets a number in the index may take.
pub const MAX_NUMBER_LEN: u8 = 9;

/// The number at `i` and where it ends: seven bits in each octet, the lowest
/// first, and the eighth bit set in all but the last. Nothing where it is cut
/// off or takes more than `left` octets.
pub open spec fn number_at(data: Seq<u8>, i: int, left: nat) -> Option<(int, int)>
    decreases left,
{
    if left == 0 || i >= data.len() {
        None
    } else if data[i] < 128 {
        Some((data[i] as int, i + 1))
    } else {
        match number_at(data, i + 1, (left - 1) as nat) {
            Some((high, end)) => Some((data[i] - 128 + 128 * high, end)),
            None => None,
        }
    }
}

/// `n` filled up to whole units of four.
pub open spec fn filled_up(n: int) -> int {
    (n + 3) / 4 * 4
}

/// Where the blocks end that the `n` records at `i` list, with `covered` for
/// where the first of them starts, and where the records end. A record holds the
/// size of a block before it is filled up, and that of its content. Nothing where
/// a record is cut off or the blocks do not fit into the data.
pub open spec fn records_at(data: Seq<u8>, i: int, n: int, covered: int) -> Option<(int, int)>
    decreases n,
{
    if covered > data.len() {
        None
    } else if n <= 0 {
        Some((covered, i))
    } else {
        match number_at(data, i, MAX_NUMBER_LEN as nat) {
            Some((size, j)) => match number_at(data, j, MAX_NUMBER_LEN as nat) {
                Some((_, k)) => records_at(data, k, n - 1, covered + filled_up(size)),
                None => None,
            },
            None => None,
        }
    }
}

/// Whether an index stands at `at` that accounts for everything in front of it,
/// and behind the index a footer that holds the largest number for its size. The
/// index is filled up to whole units of four; a checksum ends it, and another
/// one starts the footer.
pub open spec fn overflows_at(data: Seq<u8>, at: int) -> bool {
    &&& HEADER_LEN <= at < data.len()
    &&& data[at] == 0
    &&& number_at(data, at + 1, MAX_NUMBER_LEN as nat) matches Some((n, i)) && records_at(
        data,
        i,
        n,
        HEADER_LEN as int,
    ) matches Some((covered, end)) && covered == at && {
        let footer = at + filled_up(end - at) + 4;
        &&& footer + 8 <= data.len()
        &&& data[footer + 4] == 255
        &&& data[footer + 5] == 255
        &&& data[footer + 6] == 255
        &&& data[footer + 7] == 255
    }
}

/// Whether the data holds, behind an index that accounts for everything in front
/// of it, a footer with the largest number for its size.
pub open spec fn overflows(data: Seq<u8>) -> bool {
    exists|at: int| #[trigger] overflows_at(data, at)
}

/// What a number of so many octets stays below.
spec fn bound(left: nat) -> int
    decreases left,
{
    if left == 0 {
        1
    } else {
        128 * bound((left - 1) as nat)
    }
}

proof fn lemma_bound(left: nat)
    requires
        left <= MAX_NUMBER_LEN,
    ensures
        1 <= bound(left) <= 0x8000_0000_0000_0000,
        left < MAX_NUMBER_LEN ==> bound(left) <= 0x100_0000_0000_0000,
{
    reveal_with_fuel(bound, 10);
}

/// The number at `i` and where it ends.
fn read_number(data: &[u8], i: usize, left: u8) -> (r: Option<(u64, usize)>)
    requires
        left <= MAX_NUMBER_LEN,
    ensures
        (match number_at(data@, i as int, left as nat) {
            Some((value, end)) => r matches Some((v, e)) && v == value && e == end && i < end
                <= data@.len() && value < bound(left as nat),
            None => r is None,
        }),
    decreases left,
{
    if left == 0 || i >= data.len() {
        return None;
    }
    proof {
        lemma_bound(left as nat);
        lemma_bound((left - 1) as nat);
    }
    let octet: u8 = data[i];
    if octet < 128 {
        return Some((octet as u64, i + 1));
    }
    match read_number(data, i + 1, left - 1) {
        Some((high, end)) => Some(((octet - 128) as u64 + 128 * high, end)),
        None => None,
    }
}

/// Where the blocks end that the `n` records at `start` list, and where the
/// records end.
fn read_records(data: &[u8], start: usize, n: u64) -> (r: Option<(usize, usize)>)
    requires
        start <= data@.len(),
    ensures
        (match records_at(data@, start as int, n as int, HEADER_LEN as int) {
            Some((covered, end)) => r matches Some((c, e)) && c == covered && e == end && start
                <= end <= data@.len(),
            None => r is None,
        }),
{
    let size: usize = data.len();
    if HEADER_LEN > size {
        return None;
    }
    let mut covered: usize = HEADER_LEN;
    let mut i: usize = start;
    let mut left: u64 = n;
    while left > 0
        invariant
            size == data@.len(),
            covered <= size,
            start <= i <= size,
            records_at(data@, start as int, n as int, HEADER_LEN as int) == records_at(
                data@,
                i as int,
                left as int,
                covered as int,
            ),
        decreases left,
    {
        let (block, j) = match read_number(data, i, MAX_NUMBER_LEN) {
            Some(read) => read,
            None => {
                return None;
            },
        };
        let k: usize = match read_number(data, j, MAX_NUMBER_LEN) {
            Some((_, k)) => k,
            None => {
                return None;
            },
        };
        let filled: u128 = (block as u128 + 3) / 4 * 4;
        let next: u128 = covered as u128 + filled;
        assert(records_at(data@, i as int, left as int, covered as int) == records_at(
            data@,
            k as int,
            left - 1,
            next as int,
        ));
        if next > size as u128 {
            return None;
        }
        covered = next as usize;
        i = k;
        left = left - 1;
    }
    Some((covered, i))
}

/// Whether an index stands at `at` that accounts for everything in front of it,
/// and behind it a footer with the largest number for its size.
fn overflows_here(data: &[u8], at: usize) -> (r: bool)
    ensures
        r == overflows_at(data@, at as int),
{
    let size: usize = data.len();
    if at < HEADER_LEN || at >= size || data[at] != 0 {
        return false;
    }
    let (n, i) = match read_number(data, at + 1, MAX_NUMBER_LEN) {
        Some(read) => read,
        None => {
            return false;
        },
    };
    match read_records(data, i, n) {
        Some((covered, end)) => {
            if covered != at {
                return false;
            }
            let footer: u128 = at as u128 + ((end - at) as u128 + 3) / 4 * 4 + 4;
            if footer + 8 > size as u128 {
                return false;
            }
            let f: usize = footer as usize;
            data[f + 4] == 255 && data[f + 5] == 255 && data[f + 6] == 255 && data[f + 7] == 255
        },
        None => false,
    }
}

/// The blocks that records list end at a whole unit of four.
proof fn lemma_blocks_are_filled_up(data: Seq<u8>, i: int, n: int, covered: int)
    requires
        covered % 4 == 0,
    ensures
        records_at(data, i, n, covered) matches Some((end, _)) ==> end % 4 == 0,
    decreases n,
{
    if covered <= data.len() && n > 0 {
        if let Some((size, j)) = number_at(data, i, MAX_NUMBER_LEN as nat) {
            if let Some((_, k)) = number_at(data, j, MAX_NUMBER_LEN as nat) {
                lemma_blocks_are_filled_up(data, k, n - 1, covered + filled_up(size));
            }
        }
    }
}

/// A number ends behind its start.
proof fn lemma_number_goes_on(data: Seq<u8>, i: int, left: nat)
    ensures
        number_at(data, i, left) matches Some((_, end)) ==> end > i,
    decreases left,
{
    if left > 0 && i < data.len() && data[i] >= 128 {
        lemma_number_goes_on(data, i + 1, (left - 1) as nat);
    }
}

/// Records end no sooner than they start.
proof fn lemma_records_go_on(data: Seq<u8>, i: int, n: int, covered: int)
    ensures
        records_at(data, i, n, covered) matches Some((_, end)) ==> end >= i,
    decreases n,
{
    if covered <= data.len() && n > 0 {
        lemma_number_goes_on(data, i, MAX_NUMBER_LEN as nat);
        if let Some((size, j)) = number_at(data, i, MAX_NUMBER_LEN as nat) {
            lemma_number_goes_on(data, j, MAX_NUMBER_LEN as nat);
            if let Some((_, k)) = number_at(data, j, MAX_NUMBER_LEN as nat) {
                lemma_records_go_on(data, k, n - 1, covered + filled_up(size));
            }
        }
    }
}

/// An index in front of such a footer starts at a whole unit of four, and not at
/// the very end of the data.
proof fn lemma_place_of_index(data: Seq<u8>, at: int)
    requires
        overflows_at(data, at),
    ensures
        at % 4 == 0,
        at + 4 <= data.len(),
{
    let (n, i) = number_at(data, at + 1, MAX_NUMBER_LEN as nat)->Some_0;
    lemma_number_goes_on(data, at + 1, MAX_NUMBER_LEN as nat);
    lemma_records_go_on(data, i, n, HEADER_LEN as int);
    lemma_blocks_are_filled_up(data, i, n, HEADER_LEN as int);
}

/// Whether the data holds, behind an index that accounts for everything in front
/// of it, a footer with the largest number for its size. Such data is not to be
/// unpacked.
pub fn has_overflowing_footer(data: &[u8]) -> (r: bool)
    ensures
        r == overflows(data@),
{
    let size: usize = data.len();
    let units: usize = size / 4;
    let mut unit: usize = 0;
    while unit < units
        invariant
            size == data@.len(),
            units == size / 4,
            unit <= units,
            forall|k: int| 0 <= k < unit ==> !#[trigger] overflows_at(data@, 4 * k),
        decreases units - unit,
    {
        if overflows_here(data, 4 * unit) {
            assert(overflows_at(data@, 4 * unit as int));
            return true;
        }
        unit += 1;
    }
    proof {
        assert forall|at: int| !#[trigger] overflows_at(data@, at) by {
            if overflows_at(data@, at) {
                lemma_place_of_index(data@, at);
                assert(at == 4 * (at / 4) && 0 <= at / 4 < unit);
                assert(!overflows_at(data@, 4 * (at / 4)));
            }
        }
    }
    false
}

/// The octets of a number: seven bits in each, the lowest first, and the eighth bit
/// set in all but the last.
pub open spec fn number_octets(n: nat) -> Seq<u8>
    decreases n,
{
    if n < 128 {
        seq![n as u8]
    } else {
        seq![(n % 128 + 128) as u8] + number_octets(n / 128)
    }
}

/// A number that was written reads back, wherever it stands, as long as it takes no
/// more octets than may be read.
pub proof fn law_written_number_reads_back(
    before: Seq<u8>,
    n: nat,
    after: Seq<u8>,
    left: nat,
)
    requires
        number_octets(n).len() <= left,
    ensures
        number_at(before + number_octets(n) + after, before.len() as int, left) == Some(
            (n as int, (before.len() + number_octets(n).len()) as int),
        ),
    decreases n,
{
    let data = before + number_octets(n) + after;
    let i = before.len() as int;
    assert(data[i] == number_octets(n)[0]);
    if n >= 128 {
        let low = (n % 128 + 128) as u8;
        let high = number_octets(n / 128);
        assert(data =~= before.push(low) + high + after);
        law_written_number_reads_back(before.push(low), n / 128, after, (left - 1) as nat);
        assert(data[i] == low);
    }
}

/// A footer with the largest number is looked for in its place: a stream without
/// blocks that has one right behind its index is told, and data without four octets
/// of ones in a row has none.
pub proof fn law_footer_is_looked_for_in_place(data: Seq<u8>)
    ensures
        data.len() >= 28 && data[12] == 0 && data[13] == 0 && data[24] == 255 && data[25] == 255
            && data[26] == 255 && data[27] == 255 ==> overflows(data),
        (forall|i: int|
            0 <= i && i + 4 <= data.len() ==> !(#[trigger] data[i] == 255 && data[i + 1] == 255
                && data[i + 2] == 255 && data[i + 3] == 255)) ==> !overflows(data),
        data.len() < 28 ==> !overflows(data),
{
    if data.len() >= 28 && data[12] == 0 && data[13] == 0 && data[24] == 255 && data[25] == 255
        && data[26] == 255 && data[27] == 255 {
        assert(number_at(data, 13, 9) == Some((0int, 14int)));
        assert(records_at(data, 14, 0, 12) == Some((12int, 14int)));
        assert(overflows_at(data, 12));
    }
    if overflows(data) {
        let at = choose|at: int| #[trigger] overflows_at(data, at);
        let (n, i) = number_at(data, at + 1, MAX_NUMBER_LEN as nat)->Some_0;
        lemma_number_goes_on(data, at + 1, MAX_NUMBER_LEN as nat);
        let (covered, end) = records_at(data, i, n, HEADER_LEN as int)->Some_0;
        lemma_records_go_on(data, i, n, HEADER_LEN as int);
        let footer = at + filled_up(end - at) + 4;
        assert(data[footer + 4] == 255);
    }
}

} // verus!
