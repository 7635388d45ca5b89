use vstd::prelude::*;

use crate::codec::FileFormat;
use crate::error::ProtocolError;
use crate::graph::ids_fit;

verus! {

/// A byte that separates numbers in an edge-list text: space, tab, carriage return or
/// line feed.
pub open spec fn is_space(c: u8) -> bool {
    c == 32 || c == 9 || c == 13 || c == 10
}

pub open spec fn is_digit(c: u8) -> bool {
    48 <= c <= 57
}

/// An edge-list text holds only digits and separators.
pub open spec fn text_well_formed(b: Seq<u8>) -> bool {
    forall|i: int| 0 <= i < b.len() ==> is_digit(#[trigger] b[i]) || is_space(b[i])
}

pub open spec fn flush(cur: Option<nat>) -> Seq<nat> {
    match cur {
        Some(v) => seq![v],
        None => Seq::empty(),
    }
}

/// The decimal numbers of `b` from position `i` on, where `cur` is the value of the
/// digits read just before `i`, if any.
pub open spec fn numbers_from(b: Seq<u8>, i: int, cur: Option<nat>) -> Seq<nat>
    decreases b.len() - i,
{
    if i >= b.len() || i < 0 {
        flush(cur)
    } else if is_digit(b[i]) {
        let c = match cur {
            Some(v) => v,
            None => 0,
        };
        numbers_from(b, i + 1, Some(c * 10 + (b[i] - 48) as nat))
    } else {
        flush(cur) + numbers_from(b, i + 1, None)
    }
}

/// The numbers of an edge-list text, left to right.
pub open spec fn text_numbers(b: Seq<u8>) -> Seq<nat> {
    numbers_from(b, 0, None)
}

/// Every number can be a node id.
pub open spec fn numbers_fit(ns: Seq<nat>) -> bool {
    forall|i: int| 0 <= i < ns.len() ==> #[trigger] ns[i] < usize::MAX
}

/// Consecutive numbers taken two by two as (source, target).
pub open spec fn pairs_of_numbers(ns: Seq<nat>) -> Seq<(usize, usize)> {
    Seq::new(ns.len() / 2, |k: int| (ns[2 * k] as usize, ns[2 * k + 1] as usize))
}

pub open spec fn cur_nat(cur: Option<u64>) -> Option<nat> {
    match cur {
        Some(v) => Some(v as nat),
        None => None,
    }
}

/// A number still being read only grows: the number it ends as is at least its value
/// so far.
proof fn lemma_first_at_least(b: Seq<u8>, i: int, c: nat)
    requires
        0 <= i,
    ensures
        numbers_from(b, i, Some(c)).len() > 0,
        numbers_from(b, i, Some(c))[0] >= c,
    decreases b.len() - i,
{
    if i < b.len() && is_digit(b[i]) {
        lemma_first_at_least(b, i + 1, c * 10 + (b[i] - 48) as nat);
    }
}

/// Reads the numbers of an edge-list text.
pub fn read_numbers(b: &Vec<u8>) -> (r: Option<Vec<u64>>)
    ensures
        r is Some <==> text_well_formed(b@) && numbers_fit(text_numbers(b@)),
        r is Some ==> r.unwrap()@.len() == text_numbers(b@).len() && forall|i: int|
            0 <= i < text_numbers(b@).len() ==> r.unwrap()@[i] == #[trigger] text_numbers(b@)[i],
{
    let mut out: Vec<u64> = Vec::new();
    let mut cur: Option<u64> = None;
    let mut i: usize = 0;
    while i < b.len()
        invariant
            0 <= i <= b@.len(),
            forall|j: int| 0 <= j < i ==> is_digit(#[trigger] b@[j]) || is_space(b@[j]),
            out@.map_values(|x: u64| x as nat) + numbers_from(b@, i as int, cur_nat(cur))
                == text_numbers(b@),
            forall|j: int| 0 <= j < out@.len() ==> #[trigger] out@[j] < usize::MAX,
            cur is Some ==> cur.unwrap() < usize::MAX,
        decreases b@.len() - i,
    {
        let c = b[i];
        let ghost acc = out@.map_values(|x: u64| x as nat);
        let ghost before = cur_nat(cur);
        if c >= 48 && c <= 57 {
            let v: u64 = match cur {
                Some(v) => v,
                None => 0,
            };
            let next: u128 = v as u128 * 10 + (c - 48) as u128;
            if next >= usize::MAX as u128 {
                proof {
                    lemma_first_at_least(b@, i + 1, next as nat);
                    let rest = numbers_from(b@, i + 1, Some(next as nat));
                    assert(text_numbers(b@) == acc + rest);
                    assert(text_numbers(b@)[acc.len() as int] == rest[0]);
                }
                return None;
            }
            cur = Some(next as u64);
        } else if c == 32 || c == 9 || c == 13 || c == 10 {
            proof {
                assert(acc + numbers_from(b@, i as int, before) == acc + flush(before) + numbers_from(
                    b@,
                    i + 1,
                    None,
                ));
            }
            match cur {
                Some(v) => {
                    out.push(v);
                },
                None => {},
            }
            proof {
                assert(out@.map_values(|x: u64| x as nat) =~= acc + flush(before));
            }
            cur = None;
        } else {
            return None;
        }
        i = i + 1;
    }
    let ghost acc = out@.map_values(|x: u64| x as nat);
    match cur {
        Some(v) => {
            out.push(v);
        },
        None => {},
    }
    proof {
        assert(out@.map_values(|x: u64| x as nat) =~= text_numbers(b@));
        assert forall|j: int| 0 <= j < text_numbers(b@).len() implies #[trigger] text_numbers(b@)[j]
            < usize::MAX by {
            assert(out@.map_values(|x: u64| x as nat)[j] == out@[j] as nat);
        }
    }
    Some(out)
}

/// The little-endian 64-bit number whose eight bytes start at `pos`.
pub open spec fn le8_at(b: Seq<u8>, pos: int) -> u64 {
    (b[pos] as u64) | (b[pos + 1] as u64) << 8u64 | (b[pos + 2] as u64) << 16u64 | (b[pos
        + 3] as u64) << 24u64 | (b[pos + 4] as u64) << 32u64 | (b[pos + 5] as u64) << 40u64 | (b[pos
        + 6] as u64) << 48u64 | (b[pos + 7] as u64) << 56u64
}

/// The numbers of a binary edge file: little-endian 64-bit values, back to back.
pub open spec fn binary_numbers(b: Seq<u8>) -> Seq<nat> {
    Seq::new(b.len() / 8, |k: int| le8_at(b, 8 * k) as nat)
}

/// Reads the numbers of a binary edge file, whose length must be a whole number of
/// (source, target) records of sixteen bytes.
pub fn read_binary_numbers(b: &Vec<u8>) -> (r: Option<Vec<u64>>)
    ensures
        r is Some <==> b@.len() % 16 == 0 && numbers_fit(binary_numbers(b@)),
        r is Some ==> r.unwrap()@.len() == binary_numbers(b@).len() && forall|i: int|
            0 <= i < binary_numbers(b@).len() ==> r.unwrap()@[i] == #[trigger] binary_numbers(b@)[i],
{
    if b.len() % 16 != 0 {
        return None;
    }
    let total = b.len();
    let n = total / 8;
    let mut out: Vec<u64> = Vec::new();
    let mut k: usize = 0;
    while k < n
        invariant
            n == b@.len() / 8,
            total == b@.len(),
            b@.len() % 16 == 0,
            0 <= k <= n,
            out@.len() == k,
            forall|j: int| 0 <= j < k ==> out@[j] == #[trigger] binary_numbers(b@)[j],
            forall|j: int| 0 <= j < k ==> #[trigger] out@[j] < usize::MAX,
        decreases n - k,
    {
        proof {
            let len = b@.len() as int;
            assert(8 * k + 8 <= len) by (nonlinear_arith)
                requires
                    k < n,
                    n == len / 8,
                    len >= 0,
            ;
        }
        let p = 8 * k;
        let x = (b[p] as u64) | (b[p + 1] as u64) << 8u64 | (b[p + 2] as u64) << 16u64 | (b[p
            + 3] as u64) << 24u64 | (b[p + 4] as u64) << 32u64 | (b[p + 5] as u64) << 40u64 | (b[p
            + 6] as u64) << 48u64 | (b[p + 7] as u64) << 56u64;
        assert(x as nat == binary_numbers(b@)[k as int]);
        if x as u128 >= usize::MAX as u128 {
            return None;
        }
        out.push(x);
        k = k + 1;
    }
    Some(out)
}

/// Whether the bytes of a graph file can be read in `format`.
pub open spec fn file_readable(b: Seq<u8>, format: FileFormat) -> bool {
    match format {
        FileFormat::EdgeList => text_well_formed(b) && numbers_fit(text_numbers(b))
            && text_numbers(b).len() % 2 == 0,
        FileFormat::Graph500 => b.len() % 16 == 0 && numbers_fit(binary_numbers(b)),
    }
}

/// The edges that a graph file in `format` holds.
pub open spec fn file_edges(b: Seq<u8>, format: FileFormat) -> Seq<(usize, usize)> {
    match format {
        FileFormat::EdgeList => pairs_of_numbers(text_numbers(b)),
        FileFormat::Graph500 => pairs_of_numbers(binary_numbers(b)),
    }
}

/// Reads the edges of a graph file: a text of decimal (source, target) pairs
/// separated by white space, or the binary format's records.
pub fn read_edges(b: &Vec<u8>, format: FileFormat) -> (r: Result<Vec<(usize, usize)>, ProtocolError>)
    ensures
        r is Ok <==> file_readable(b@, format),
        r is Ok ==> r->Ok_0@ == file_edges(b@, format) && ids_fit(r->Ok_0@),
        r is Err ==> r->Err_0.kind == crate::error::ErrorKind::InvalidArgument,
{
    let ghost ns = match format {
        FileFormat::EdgeList => text_numbers(b@),
        FileFormat::Graph500 => binary_numbers(b@),
    };
    let numbers = match format {
        FileFormat::EdgeList => read_numbers(b),
        FileFormat::Graph500 => read_binary_numbers(b),
    };
    let numbers = match numbers {
        Some(v) => v,
        None => return Err(ProtocolError::invalid_argument("Malformed graph file")),
    };
    if numbers.len() % 2 != 0 {
        proof {
            assert(format == FileFormat::Graph500 ==> ns.len() % 2 == 0) by {
                if format == FileFormat::Graph500 {
                    assert(ns.len() == b@.len() / 8);
                    assert(b@.len() % 16 == 0);
                    assert((b@.len() / 8) % 2 == 0) by (nonlinear_arith)
                        requires
                            b@.len() % 16 == 0,
                    ;
                }
            }
        }
        return Err(ProtocolError::invalid_argument("Odd number of ids in graph file"));
    }
    proof {
        if format == FileFormat::Graph500 {
            assert((b@.len() / 8) % 2 == 0) by (nonlinear_arith)
                requires
                    b@.len() % 16 == 0,
            ;
        }
    }
    let count = numbers.len();
    let half = count / 2;
    let mut edges: Vec<(usize, usize)> = Vec::new();
    let mut k: usize = 0;
    while k < half
        invariant
            half == numbers@.len() / 2,
            numbers@.len() <= usize::MAX,
            numbers@.len() == ns.len(),
            numbers@.len() % 2 == 0,
            forall|i: int| 0 <= i < ns.len() ==> numbers@[i] == #[trigger] ns[i],
            numbers_fit(ns),
            0 <= k <= half,
            edges@ == pairs_of_numbers(ns).subrange(0, k as int),
            ids_fit(edges@),
        decreases half - k,
    {
        let s = numbers[2 * k];
        let t = numbers[2 * k + 1];
        proof {
            assert(ns[2 * k as int] < usize::MAX && ns[2 * k + 1] < usize::MAX);
        }
        edges.push((s as usize, t as usize));
        k = k + 1;
        assert(edges@ =~= pairs_of_numbers(ns).subrange(0, k as int));
    }
    assert(pairs_of_numbers(ns).subrange(0, half as int) =~= pairs_of_numbers(ns));
    Ok(edges)
}

} // verus!
