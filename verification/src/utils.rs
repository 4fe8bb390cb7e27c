//! Byte-level comparison logic behind the diff tools, and the printable
//! rendering of a byte.

use vstd::arithmetic::div_mod::lemma_fundamental_div_mod;
use vstd::prelude::*;

verus! {

/// The printable display of a byte: ASCII graphic characters and the space
/// stand for themselves, everything else shows as a dot.
pub open spec fn spec_to_char(b: u8) -> char {
    if (33 <= b && b <= 126) || b == 32 {
        b as char
    } else {
        '.'
    }
}

pub fn to_char(b: u8) -> (c: char)
    ensures
        c == spec_to_char(b),
{
    if (33 <= b && b <= 126) || b == 32 {
        b as char
    } else {
        '.'
    }
}

/// The byte at `i`, reading past the end as zero: the byte diff pads the
/// shorter file with zeros.
pub open spec fn byte_at(s: Seq<u8>, i: int) -> u8 {
    if 0 <= i < s.len() {
        s[i]
    } else {
        0
    }
}

/// The length both files are padded to: the longer of the two.
pub open spec fn pad_len(a: Seq<u8>, b: Seq<u8>) -> int {
    if a.len() >= b.len() {
        a.len() as int
    } else {
        b.len() as int
    }
}

/// The first index at which the two zero-padded files differ, if any.
pub fn first_diff(a: &[u8], b: &[u8]) -> (r: Option<usize>)
    ensures
        match r {
            Some(i) => i < pad_len(a@, b@) && byte_at(a@, i as int) != byte_at(b@, i as int)
                && forall|j: int| 0 <= j < i ==> byte_at(a@, j) == byte_at(b@, j),
            None => forall|j: int| 0 <= j < pad_len(a@, b@) ==> byte_at(a@, j) == byte_at(b@, j),
        },
{
    let la: usize = a.len();
    let lb: usize = b.len();
    let len: usize = if la >= lb {
        la
    } else {
        lb
    };
    let mut i: usize = 0;
    while i < len
        invariant
            i <= len,
            len == pad_len(a@, b@),
            la == a@.len(),
            lb == b@.len(),
            forall|j: int| 0 <= j < i ==> byte_at(a@, j) == byte_at(b@, j),
        decreases len - i,
    {
        let ba: u8 = if i < la {
            a[i]
        } else {
            0
        };
        let bb: u8 = if i < lb {
            b[i]
        } else {
            0
        };
        if ba != bb {
            return Some(i);
        }
        i = i + 1;
    }
    None
}

/// The bytes of block `block`, or nothing when the block does not lie fully
/// inside the file: a partial tail block reads as empty.
pub open spec fn block_chunk(s: Seq<u8>, block: int, size: int) -> Seq<u8> {
    if block >= 0 && size >= 0 && block * size + size <= s.len() {
        s.subrange(block * size, block * size + size)
    } else {
        Seq::empty()
    }
}

pub open spec fn block_differs(a: Seq<u8>, b: Seq<u8>, block: int, size: int) -> bool {
    block_chunk(a, block, size) != block_chunk(b, block, size)
}

/// The indices of the differing blocks among the first `t`, in order.
pub open spec fn differing_blocks(a: Seq<u8>, b: Seq<u8>, size: int, t: int) -> Seq<int>
    decreases t,
{
    if t <= 0 {
        Seq::empty()
    } else if block_differs(a, b, t - 1, size) {
        differing_blocks(a, b, size, t - 1).push(t - 1)
    } else {
        differing_blocks(a, b, size, t - 1)
    }
}

proof fn lemma_differing_blocks_prefix(a: Seq<u8>, b: Seq<u8>, size: int, t1: int, t2: int)
    requires
        0 <= t1 <= t2,
    ensures
        differing_blocks(a, b, size, t1).len() <= differing_blocks(a, b, size, t2).len(),
        differing_blocks(a, b, size, t2).take(differing_blocks(a, b, size, t1).len() as int)
            == differing_blocks(a, b, size, t1),
    decreases t2,
{
    if t1 == t2 {
        assert(differing_blocks(a, b, size, t2).take(
            differing_blocks(a, b, size, t1).len() as int,
        ) =~= differing_blocks(a, b, size, t1));
    } else {
        lemma_differing_blocks_prefix(a, b, size, t1, t2 - 1);
        let shorter = differing_blocks(a, b, size, t1);
        let prev = differing_blocks(a, b, size, t2 - 1);
        if block_differs(a, b, t2 - 1, size) {
            assert(prev.push(t2 - 1).take(shorter.len() as int) =~= prev.take(
                shorter.len() as int,
            ));
        }
    }
}

fn block_differs_exec(a: &[u8], b: &[u8], block: usize, size: usize) -> (r: bool)
    requires
        size >= 1,
        block * size + size <= usize::MAX,
    ensures
        r == block_differs(a@, b@, block as int, size as int),
{
    let start: usize = block * size;
    let ina: bool = start + size <= a.len();
    let inb: bool = start + size <= b.len();
    if !ina && !inb {
        proof {
            assert(block_chunk(a@, block as int, size as int) =~= Seq::<u8>::empty());
            assert(block_chunk(b@, block as int, size as int) =~= Seq::<u8>::empty());
        }
        return false;
    }
    if ina != inb {
        proof {
            if ina {
                assert(block_chunk(a@, block as int, size as int).len() == size);
                assert(block_chunk(b@, block as int, size as int).len() == 0);
            } else {
                assert(block_chunk(b@, block as int, size as int).len() == size);
                assert(block_chunk(a@, block as int, size as int).len() == 0);
            }
        }
        return true;
    }
    let mut i: usize = 0;
    while i < size
        invariant
            i <= size,
            size >= 1,
            start == block * size,
            a@.len() <= usize::MAX,
            b@.len() <= usize::MAX,
            start + size <= a@.len(),
            start + size <= b@.len(),
            forall|j: int| 0 <= j < i ==> #[trigger] a@[start + j] == b@[start + j],
        decreases size - i,
    {
        let ba: u8 = a[start + i];
        let bb: u8 = b[start + i];
        if ba != bb {
            proof {
                let ca = block_chunk(a@, block as int, size as int);
                let cb = block_chunk(b@, block as int, size as int);
                assert(ca[i as int] != cb[i as int]);
            }
            return true;
        }
        i = i + 1;
    }
    proof {
        let ca = block_chunk(a@, block as int, size as int);
        let cb = block_chunk(b@, block as int, size as int);
        assert forall|j: int| 0 <= j < size implies ca[j] == cb[j] by {
            assert(a@[start + j] == b@[start + j]);
        }
        assert(ca =~= cb);
    }
    false
}

/// The indices of the first differing blocks between two files, capped as
/// the block diff tool caps them: it stops after reporting `max_blocks`
/// differing blocks, though it always reports at least one when any block
/// differs.
pub fn diff_block_indices(a: &[u8], b: &[u8], block_size: usize, max_blocks: usize) -> (r: Vec<
    usize,
>)
    requires
        block_size >= 1,
    ensures
        ({
            let total = pad_len(a@, b@) / block_size as int;
            let all = differing_blocks(a@, b@, block_size as int, total);
            let cap = if max_blocks == 0 {
                1int
            } else {
                max_blocks as int
            };
            r@.map_values(|x: usize| x as int) == if all.len() <= cap {
                all
            } else {
                all.take(cap)
            }
        }),
{
    let la: usize = a.len();
    let lb: usize = b.len();
    let len: usize = if la >= lb {
        la
    } else {
        lb
    };
    let total: usize = len / block_size;
    let cap: usize = if max_blocks == 0 {
        1
    } else {
        max_blocks
    };
    let ghost all = differing_blocks(a@, b@, block_size as int, total as int);
    let mut found: Vec<usize> = Vec::new();
    let mut block: usize = 0;
    proof {
        lemma_fundamental_div_mod(len as int, block_size as int);
    }
    loop
        invariant_except_break
            block <= total,
            total == pad_len(a@, b@) / block_size as int,
            total * block_size <= len,
            len == pad_len(a@, b@),
            cap >= 1,
            cap == if max_blocks == 0 {
                1int
            } else {
                max_blocks as int
            },
            all == differing_blocks(a@, b@, block_size as int, total as int),
            block_size >= 1,
            found@.len() < cap,
            found@.map_values(|x: usize| x as int) == differing_blocks(
                a@,
                b@,
                block_size as int,
                block as int,
            ),
        ensures
            found@.map_values(|x: usize| x as int) == if all.len() <= cap {
                all
            } else {
                all.take(cap as int)
            },
        decreases total - block,
    {
        if block >= total {
            proof {
                lemma_differing_blocks_prefix(
                    a@,
                    b@,
                    block_size as int,
                    block as int,
                    total as int,
                );
                assert(all.len() <= cap);
            }
            break ;
        }
        proof {
            assert((block as int) * (block_size as int) + block_size <= (total as int) * (
            block_size as int)) by (nonlinear_arith)
                requires
                    block + 1 <= total,
                    block_size >= 1,
                    block >= 0,
            ;
        }
        let differs: bool = block_differs_exec(a, b, block, block_size);
        if differs {
            let ghost old_found = found@;
            found.push(block);
            proof {
                assert(found@.map_values(|x: usize| x as int) =~= old_found.map_values(
                    |x: usize| x as int,
                ).push(block as int));
            }
            if found.len() >= cap {
                proof {
                    lemma_differing_blocks_prefix(
                        a@,
                        b@,
                        block_size as int,
                        block as int + 1,
                        total as int,
                    );
                    assert(all.take(cap as int) == differing_blocks(
                        a@,
                        b@,
                        block_size as int,
                        block as int + 1,
                    ));
                    if all.len() <= cap {
                        assert(all.take(cap as int) =~= all);
                    }
                }
                break ;
            }
        }
        block = block + 1;
    }
    found
}

} // verus!
