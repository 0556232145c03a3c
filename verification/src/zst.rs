//! The frames and blocks of a `.zst` file, as far as it takes to tell how many
//! sequences each block holds.
//!
//! A file is a row of frames. A frame has a header and a row of blocks, the last
//! of which is marked, and may end with a checksum. A compressed block has a
//! section of literals and a section of sequences; each sequence says how much
//! to copy from the literals and from what was put out before.

use vstd::prelude::*;

verus! {

/// The number that starts a frame.
pub const FRAME_MAGIC: u32 = 0xfd2f_b528;

/// The first and the last of the numbers that start a frame to be skipped.
pub const FIRST_SKIP_MAGIC: u32 = 0x184d_2a50;

pub const LAST_SKIP_MAGIC: u32 = 0x184d_2a5f;

/// How many octets a block may take.
pub const MAX_BLOCK_LEN: usize = 131_072;

/// How many sequences can be run without what they put out, at most 131,074
/// octets each and a megabyte of literals, exceeding 32 bits.
pub const MAX_SEQUENCES: usize = 32_759;

/// The number of `n` octets at `i`, the lowest first.
pub open spec fn little(data: Seq<u8>, i: int, n: nat) -> int
    decreases n,
{
    if n == 0 {
        0
    } else {
        data[i] + 0x100 * little(data, i + 1, (n - 1) as nat)
    }
}

/// How many octets the header of a frame takes, by the octet that describes it:
/// the number that starts the frame, this octet, the size of the window, the
/// number of a dictionary and the size of the content, as far as they are there.
pub open spec fn header_len(descriptor: u8) -> int {
    let single = descriptor / 32 % 2 == 1;
    let window: int = if single {
        0
    } else {
        1
    };
    let dictionary: int = match descriptor % 4 {
        0 => 0,
        1 => 1,
        2 => 2,
        _ => 4,
    };
    let content: int = match descriptor / 64 {
        0 => if single {
            1
        } else {
            0
        },
        1 => 2,
        2 => 4,
        _ => 8,
    };
    5 + window + dictionary + content
}

/// Whether a checksum ends the frame, by the octet that describes it.
pub open spec fn has_checksum(descriptor: u8) -> bool {
    descriptor / 4 % 2 == 1
}

/// How many octets the header of the literals takes, and how many the literals
/// themselves take in the block. `b` is the block.
pub open spec fn literals_len(b: Seq<u8>) -> (int, int) {
    let kind = b[0] % 4;
    let format = b[0] / 4 % 4;
    if kind <= 1 {
        // Stored as they are, or as one octet that is repeated.
        let (header, size) = if format == 1 {
            (2, b[0] / 16 + b[1] * 16)
        } else if format == 3 {
            (3, b[0] / 16 + b[1] * 16 + b[2] * 4096)
        } else {
            (1, (b[0] / 8) as int)
        };
        (
            header,
            if kind == 1 {
                1
            } else {
                size
            },
        )
    } else if format <= 1 {
        (3, b[1] / 64 + b[2] * 4)
    } else if format == 2 {
        (4, b[2] / 4 + b[3] * 64)
    } else {
        (5, b[2] / 64 + b[3] * 4 + b[4] * 1024)
    }
}

/// How many sequences a compressed block holds: none where that cannot be read.
pub open spec fn sequences_in(b: Seq<u8>) -> int {
    let (header, literals) = literals_len(b);
    let i = header + literals;
    if b.len() == 0 || header > b.len() || i >= b.len() {
        0
    } else if b[i] < 128 {
        b[i] as int
    } else if b[i] < 255 {
        if i + 2 > b.len() {
            0
        } else {
            (b[i] - 128) * 256 + b[i + 1]
        }
    } else if i + 4 > b.len() {
        0
    } else {
        b[i + 1] + b[i + 2] * 256 + 0x7f00
    }
}

/// What comes of a walk over the blocks of a frame.
pub enum Walk {
    /// They end here.
    Ends(int),
    /// One of them is cut off or of no valid kind or size.
    Broken,
    /// One of them holds more sequences than can be run.
    Heavy,
}

/// The walk over the blocks of a frame from `i` on.
pub open spec fn walk(data: Seq<u8>, i: int) -> Walk
    decreases data.len() - i,
    via walk_decreases
{
    if i + 3 > data.len() {
        Walk::Broken
    } else {
        let header = little(data, i, 3);
        let kind = header / 2 % 4;
        let size = header / 8;
        let taken = if kind == 1 {
            1
        } else {
            size
        };
        let next = i + 3 + taken;
        if kind == 3 || size > MAX_BLOCK_LEN || next > data.len() {
            Walk::Broken
        } else if kind == 2 && sequences_in(data.subrange(i + 3, next)) > MAX_SEQUENCES {
            Walk::Heavy
        } else if header % 2 == 1 {
            Walk::Ends(next)
        } else {
            walk(data, next)
        }
    }
}

#[via_fn]
proof fn walk_decreases(data: Seq<u8>, i: int) {
    lemma_little(data, i, 3);
}

/// Whether no block of the frames from `i` on, up to the first that is broken,
/// holds more sequences than can be run.
pub open spec fn light_from(data: Seq<u8>, i: int) -> bool
    decreases data.len() - i,
    via light_from_decreases
{
    if i < 0 || i + 5 > data.len() {
        true
    } else {
        let magic = little(data, i, 4);
        if FIRST_SKIP_MAGIC <= magic <= LAST_SKIP_MAGIC {
            let next = i + 8 + little(data, i + 4, 4);
            i + 8 > data.len() || next > data.len() || light_from(data, next)
        } else if magic != FRAME_MAGIC {
            true
        } else {
            let descriptor = data[i + 4];
            match walk(data, i + header_len(descriptor)) {
                Walk::Ends(end) => {
                    let next = if has_checksum(descriptor) {
                        end + 4
                    } else {
                        end
                    };
                    next > data.len() || light_from(data, next)
                },
                Walk::Broken => true,
                Walk::Heavy => false,
            }
        }
    }
}

#[via_fn]
proof fn light_from_decreases(data: Seq<u8>, i: int) {
    if 0 <= i && i + 5 <= data.len() {
        lemma_little(data, i + 4, 4);
        lemma_walk_goes_on(data, i + header_len(data[i + 4]));
    }
}

/// Whether no block of the file holds more sequences than can be run.
pub open spec fn is_light(data: Seq<u8>) -> bool {
    light_from(data, 0)
}

proof fn lemma_little(data: Seq<u8>, i: int, n: nat)
    requires
        n <= 4,
    ensures
        0 <= little(data, i, n) <= 0xffff_ffff,
        n == 3 ==> little(data, i, n) == data[i] + 0x100 * data[i + 1] + 0x1_0000 * data[i + 2],
        n == 4 ==> little(data, i, n) == data[i] + 0x100 * data[i + 1] + 0x1_0000 * data[i + 2]
            + 0x100_0000 * data[i + 3],
{
    reveal_with_fuel(little, 5);
}

proof fn lemma_walk_goes_on(data: Seq<u8>, i: int)
    ensures
        walk(data, i) matches Walk::Ends(end) ==> i < end <= data.len(),
    decreases data.len() - i,
{
    if i + 3 <= data.len() {
        lemma_little(data, i, 3);
        let header = little(data, i, 3);
        let next = i + 3 + if header / 2 % 4 == 1 {
            1
        } else {
            header / 8
        };
        if next <= data.len() {
            lemma_walk_goes_on(data, next);
        }
    }
}

/// How many octets the header of a frame takes.
fn measure_header(descriptor: u8) -> (r: usize)
    ensures
        r == header_len(descriptor),
        5 <= r <= 18,
{
    let single = descriptor / 32 % 2 == 1;
    let window: usize = if single {
        0
    } else {
        1
    };
    let dictionary: usize = match descriptor % 4 {
        0 => 0,
        1 => 1,
        2 => 2,
        _ => 4,
    };
    let content: usize = match descriptor / 64 {
        0 => if single {
            1
        } else {
            0
        },
        1 => 2,
        2 => 4,
        _ => 8,
    };
    5 + window + dictionary + content
}

/// How many octets the header of the literals takes, and how many the literals
/// themselves take in the block: nothing where the header is cut off.
fn measure_literals(b: &[u8]) -> (r: Option<(usize, usize)>)
    ensures
        r is None <==> b@.len() == 0 || literals_len(b@).0 > b@.len(),
        r matches Some((header, size)) ==> header == literals_len(b@).0 && size == literals_len(
            b@,
        ).1 && header <= 5 && size <= 0x10_0000,
{
    if b.len() == 0 {
        return None;
    }
    let kind: u8 = b[0] % 4;
    let format: u8 = b[0] / 4 % 4;
    let header: usize = if kind <= 1 {
        if format == 1 {
            2
        } else if format == 3 {
            3
        } else {
            1
        }
    } else if format <= 1 {
        3
    } else if format == 2 {
        4
    } else {
        5
    };
    if header > b.len() {
        return None;
    }
    let size: usize = if kind == 1 {
        1
    } else if kind == 0 {
        if format == 1 {
            b[0] as usize / 16 + b[1] as usize * 16
        } else if format == 3 {
            b[0] as usize / 16 + b[1] as usize * 16 + b[2] as usize * 4096
        } else {
            b[0] as usize / 8
        }
    } else if format <= 1 {
        b[1] as usize / 64 + b[2] as usize * 4
    } else if format == 2 {
        b[2] as usize / 4 + b[3] as usize * 64
    } else {
        b[2] as usize / 64 + b[3] as usize * 4 + b[4] as usize * 1024
    };
    Some((header, size))
}

/// How many sequences a compressed block holds.
fn count_sequences(b: &[u8]) -> (r: usize)
    ensures
        r == sequences_in(b@),
{
    match measure_literals(b) {
        Some((header, literals)) => {
            let i: usize = header + literals;
            let size: usize = b.len();
            if i >= size {
                0
            } else if b[i] < 128 {
                b[i] as usize
            } else if b[i] < 255 {
                if size - i < 2 {
                    0
                } else {
                    (b[i] - 128) as usize * 256 + b[i + 1] as usize
                }
            } else if size - i < 4 {
                0
            } else {
                b[i + 1] as usize + b[i + 2] as usize * 256 + 0x7f00
            }
        },
        None => 0,
    }
}

/// What comes of a walk over the blocks of a frame.
enum Walked {
    Ends(usize),
    Broken,
    Heavy,
}

/// The walk over the blocks of a frame from `start` on.
fn walk_blocks(data: &[u8], start: usize) -> (r: Walked)
    requires
        start <= data@.len(),
    ensures
        (match walk(data@, start as int) {
            Walk::Ends(end) => r matches Walked::Ends(e) && e == end && start < end <= data@.len(),
            Walk::Broken => r is Broken,
            Walk::Heavy => r is Heavy,
        }),
{
    let len: usize = data.len();
    let mut i: usize = start;
    proof {
        lemma_walk_goes_on(data@, start as int);
    }
    while len - i >= 3
        invariant
            len == data@.len(),
            start <= i <= len,
            walk(data@, start as int) == walk(data@, i as int),
            walk(data@, start as int) matches Walk::Ends(end) ==> start < end <= len,
        decreases len - i,
    {
        proof {
            lemma_little(data@, i as int, 3);
        }
        let header: usize = data[i] as usize + 0x100 * data[i + 1] as usize + 0x1_0000 * data[i
            + 2] as usize;
        let kind: usize = header / 2 % 4;
        let size: usize = header / 8;
        let taken: usize = if kind == 1 {
            1
        } else {
            size
        };
        if kind == 3 || size > MAX_BLOCK_LEN || len - i - 3 < taken {
            return Walked::Broken;
        }
        let next: usize = i + 3 + taken;
        if kind == 2 {
            let block = vstd::slice::slice_subrange(data, i + 3, next);
            if count_sequences(block) > MAX_SEQUENCES {
                return Walked::Heavy;
            }
        }
        if header % 2 == 1 {
            return Walked::Ends(next);
        }
        i = next;
    }
    Walked::Broken
}

/// Whether no block of the file holds more sequences than can be run.
pub fn holds_light_blocks(data: &[u8]) -> (r: bool)
    ensures
        r == is_light(data@),
{
    let len: usize = data.len();
    let mut i: usize = 0;
    while len - i >= 5
        invariant
            len == data@.len(),
            i <= len,
            light_from(data@, 0) == light_from(data@, i as int),
        decreases len - i,
    {
        proof {
            lemma_little(data@, i as int, 4);
            lemma_little(data@, i + 4, 4);
        }
        let magic: u32 = data[i] as u32 + 0x100 * data[i + 1] as u32 + 0x1_0000 * data[i + 2] as u32
            + 0x100_0000 * data[i + 3] as u32;
        if FIRST_SKIP_MAGIC <= magic && magic <= LAST_SKIP_MAGIC {
            if len - i < 8 {
                return true;
            }
            let skipped: u32 = data[i + 4] as u32 + 0x100 * data[i + 5] as u32 + 0x1_0000 * data[i
                + 6] as u32 + 0x100_0000 * data[i + 7] as u32;
            if len - i - 8 < skipped as usize {
                return true;
            }
            i = i + 8 + skipped as usize;
        } else if magic != FRAME_MAGIC {
            return true;
        } else {
            let descriptor: u8 = data[i + 4];
            let header: usize = measure_header(descriptor);
            if len - i < header {
                return true;
            }
            match walk_blocks(data, i + header) {
                Walked::Ends(end) => {
                    if descriptor / 4 % 2 == 1 {
                        if len - end < 4 {
                            return true;
                        }
                        i = end + 4;
                    } else {
                        i = end;
                    }
                },
                Walked::Broken => {
                    return true;
                },
                Walked::Heavy => {
                    return false;
                },
            }
        }
    }
    true
}

/// Numbers have their lowest octet in front.
pub proof fn law_lowest_octet_comes_first(data: Seq<u8>, i: int)
    ensures
        little(data, i, 3) == data[i] + 256 * data[i + 1] + 65536 * data[i + 2],
        little(data, i, 4) == data[i] + 256 * data[i + 1] + 65536 * data[i + 2] + 16777216 * data[i
            + 3],
{
    lemma_little(data, i, 3);
    lemma_little(data, i, 4);
}

/// How many sequences stand behind literals that are stored as they are under a
/// header of one octet: the number behind the literals, which takes one octet up to
/// 127, two octets up to 32511, and three octets from there on.
pub proof fn law_sequences_are_counted(b: Seq<u8>, literals: int)
    requires
        b.len() > 0,
        b[0] == 8 * literals,
        0 <= literals < 32,
        1 + literals + 4 <= b.len(),
    ensures
        ({
            let first = b[1 + literals];
            &&& first < 128 ==> sequences_in(b) == first
            &&& 128 <= first < 255 ==> sequences_in(b) == 256 * (first - 128) + b[2 + literals]
            &&& first == 255 ==> sequences_in(b) == 32512 + b[2 + literals] + 256 * b[3 + literals]
        }),
{
    assert(b[0] % 4 == 0 && b[0] / 8 == literals);
    assert(b[0] / 4 % 4 == 0 || b[0] / 4 % 4 == 2);
}

/// Data that does not start with a frame holds no block at all.
pub proof fn law_data_without_frame_is_light(data: Seq<u8>)
    requires
        data.len() < 5 || !(data[0] == 0x28 && data[1] == 0xb5 && data[2] == 0x2f && data[3] == 0xfd)
            && !(0x50 <= data[0] <= 0x5f && data[1] == 0x2a && data[2] == 0x4d && data[3] == 0x18),
    ensures
        is_light(data),
{
    if data.len() >= 5 {
        lemma_little(data, 0, 4);
    }
}

/// A frame whose first block is compressed, whole and holds more than 32,759
/// sequences is told.
pub proof fn law_heavy_block_is_told(data: Seq<u8>, start: int, header: int)
    requires
        data.len() >= 5,
        data[0] == 0x28 && data[1] == 0xb5 && data[2] == 0x2f && data[3] == 0xfd,
        start == header_len(data[4]),
        header == data[start] + 256 * data[start + 1] + 65536 * data[start + 2],
        header / 8 <= 131_072,
        header / 2 % 4 == 2,
        start + 3 + header / 8 <= data.len(),
        sequences_in(data.subrange(start + 3, start + 3 + header / 8)) > 32_759,
    ensures
        !is_light(data),
{
    lemma_little(data, 0, 4);
    lemma_little(data, start, 3);
    assert(walk(data, start) is Heavy);
}

proof fn lemma_little_moves(a: Seq<u8>, b: Seq<u8>, i: int, n: nat)
    requires
        0 <= i,
        i + n <= b.len(),
    ensures
        little(a + b, a.len() + i, n) == little(b, i, n),
    decreases n,
{
    if n > 0 {
        lemma_little_moves(a, b, i + 1, (n - 1) as nat);
        assert((a + b)[a.len() + i] == b[i]);
    }
}

proof fn lemma_walk_moves(a: Seq<u8>, b: Seq<u8>, i: int)
    requires
        0 <= i,
    ensures
        (match walk(b, i) {
            Walk::Ends(end) => walk(a + b, a.len() + i) == Walk::Ends(a.len() + end),
            Walk::Broken => walk(a + b, a.len() + i) is Broken,
            Walk::Heavy => walk(a + b, a.len() + i) is Heavy,
        }),
    decreases b.len() - i,
{
    if i + 3 <= b.len() {
        lemma_little(b, i, 3);
        lemma_little_moves(a, b, i, 3);
        let header = little(b, i, 3);
        let kind = header / 2 % 4;
        let size = header / 8;
        let taken = if kind == 1 {
            1
        } else {
            size
        };
        let next = i + 3 + taken;
        if !(kind == 3 || size > MAX_BLOCK_LEN || next > b.len()) {
            assert((a + b).subrange(a.len() + i + 3, a.len() + next) =~= b.subrange(i + 3, next));
            lemma_walk_moves(a, b, next);
        }
    }
}

proof fn lemma_light_moves(a: Seq<u8>, b: Seq<u8>, i: int)
    requires
        0 <= i,
    ensures
        light_from(a + b, a.len() + i) == light_from(b, i),
    decreases b.len() - i,
{
    if i + 5 <= b.len() {
        lemma_little(b, i + 4, 4);
        lemma_little_moves(a, b, i, 4);
        let magic = little(b, i, 4);
        let descriptor = b[i + 4];
        assert((a + b)[a.len() + i + 4] == descriptor);
        if FIRST_SKIP_MAGIC <= magic <= LAST_SKIP_MAGIC {
            if i + 8 <= b.len() {
                lemma_little_moves(a, b, i + 4, 4);
                let next = i + 8 + little(b, i + 4, 4);
                if next <= b.len() {
                    lemma_light_moves(a, b, next);
                }
            }
        } else if magic == FRAME_MAGIC {
            let start = i + header_len(descriptor);
            lemma_walk_moves(a, b, start);
            lemma_walk_goes_on(b, start);
            if let Walk::Ends(end) = walk(b, start) {
                let next = if has_checksum(descriptor) {
                    end + 4
                } else {
                    end
                };
                if next <= b.len() {
                    lemma_light_moves(a, b, next);
                }
            }
        }
    }
}

/// A frame to be skipped holds no block, so what counts is what follows it.
pub proof fn law_skipped_frame_has_no_bearing(frame: Seq<u8>, rest: Seq<u8>)
    requires
        frame.len() >= 8,
        0x50 <= frame[0] <= 0x5f && frame[1] == 0x2a && frame[2] == 0x4d && frame[3] == 0x18,
        frame.len() == 8 + frame[4] + 256 * frame[5] + 65536 * frame[6] + 16777216 * frame[7],
    ensures
        is_light(frame + rest) == is_light(rest),
{
    let data = frame + rest;
    lemma_little(data, 0, 4);
    lemma_little(data, 4, 4);
    assert(data[0] == frame[0] && data[1] == frame[1] && data[2] == frame[2] && data[3] == frame[3]);
    assert(data[4] == frame[4] && data[5] == frame[5] && data[6] == frame[6] && data[7] == frame[7]);
    lemma_light_moves(frame, rest, 0);
}

/// A frame that ends with its last block, of which none holds too many sequences, has
/// no bearing on what follows it.
pub proof fn law_light_frame_has_no_bearing(frame: Seq<u8>, rest: Seq<u8>)
    requires
        frame.len() >= 5,
        frame[0] == 0x28 && frame[1] == 0xb5 && frame[2] == 0x2f && frame[3] == 0xfd,
        walk(frame, header_len(frame[4])) matches Walk::Ends(end) && frame.len() == end + (
        if has_checksum(frame[4]) {
            4int
        } else {
            0
        }),
    ensures
        is_light(frame + rest) == is_light(rest),
{
    let data = frame + rest;
    let start = header_len(frame[4]);
    lemma_little(data, 0, 4);
    assert(data[0] == frame[0] && data[1] == frame[1] && data[2] == frame[2] && data[3] == frame[3]);
    assert(data[4] == frame[4]);
    lemma_walk_reaches_end(frame, rest, start);
    lemma_light_moves(frame, rest, 0);
}

proof fn lemma_walk_reaches_end(frame: Seq<u8>, rest: Seq<u8>, i: int)
    requires
        0 <= i,
        walk(frame, i) is Ends,
    ensures
        walk(frame + rest, i) == walk(frame, i),
    decreases frame.len() - i,
{
    let data = frame + rest;
    lemma_little(frame, i, 3);
    lemma_little(data, i, 3);
    assert(data[i] == frame[i] && data[i + 1] == frame[i + 1] && data[i + 2] == frame[i + 2]);
    let header = little(frame, i, 3);
    let kind = header / 2 % 4;
    let taken = if kind == 1 {
        1
    } else {
        header / 8
    };
    let next = i + 3 + taken;
    assert(data.subrange(i + 3, next) =~= frame.subrange(i + 3, next));
    if header % 2 != 1 {
        lemma_walk_reaches_end(frame, rest, next);
    }
}

/// How long the header of a frame is: five octets, one for the window unless the
/// content is held in one segment, up to four for the dictionary, and up to eight for
/// the size of the content, which one segment always gives.
pub proof fn law_header_has_its_parts(
    single: bool,
    checksum: bool,
    dictionary: int,
    size: int,
    rest: int,
)
    requires
        0 <= dictionary < 4,
        0 <= size < 4,
        0 <= rest < 4,
    ensures
        ({
            let (s, c) = (
                if single {
                    32int
                } else {
                    0
                },
                if checksum {
                    4int
                } else {
                    0
                },
            );
            let descriptor = (64 * size + s + 8 * rest + c + dictionary) as u8;
            let for_window: int = if single {
                0
            } else {
                1
            };
            let for_dictionary: int = if dictionary == 3 {
                4
            } else {
                dictionary
            };
            let for_size: int = if size == 0 {
                1 - for_window
            } else if size == 1 {
                2
            } else if size == 2 {
                4
            } else {
                8
            };
            &&& header_len(descriptor) == 5 + for_window + for_dictionary + for_size
            &&& has_checksum(descriptor) == checksum
        }),
{
}

} // verus!
