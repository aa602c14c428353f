//! A walk over the bytes of an uncompressed tree that looks at nothing but
//! its framing: tags, names, length prefixes and nesting. The parser reserves
//! room for as many elements as a length prefix announces, and it calls
//! itself once for each level of nesting, so a tree is handed to it only if
//! every prefix on the parser's way is one that the rest of the data can
//! fill and no list or compound lies deeper than [`MAX_DEPTH`].

use crate::region::{byte_at, read_word, word_at};
use vstd::prelude::*;

verus! {

/// How many lists and compounds may lie inside each other, the root
/// compound counted.
pub const MAX_DEPTH: usize = 512;

/// Bytes that the parser may take to hold one element of a list. A list
/// whose elements would take more than the address space is unfit.
pub const ELEMENT_ROOM: usize = 64;

/// A list or compound that the walk is inside of and has not seen the end
/// of. A list leaves the frames when its last element is taken, so the
/// frames may be fewer than the lists and compounds around a position:
/// `depth` counts those, the frame's own among them.
#[derive(Clone, Copy, Debug, PartialEq, Eq, Structural)]
pub enum Frame {
    /// A compound: named fields follow, up to an end tag.
    Fields { depth: usize },
    /// A list: `left` more payloads of tag `tag` follow, at least one.
    Items { tag: u8, left: u32, depth: usize },
}

impl Frame {
    /// How many lists and compounds lie around the frame's payloads.
    pub open spec fn depth(self) -> int {
        match self {
            Frame::Fields { depth } => depth as int,
            Frame::Items { depth, .. } => depth as int,
        }
    }
}

/// Whether no frame lies deeper than [`MAX_DEPTH`].
pub open spec fn shallow(open: Seq<Frame>) -> bool {
    forall|i: int| 0 <= i < open.len() ==> (#[trigger] open[i]).depth() <= MAX_DEPTH
}

/// What one step of the walk comes to.
pub enum Step {
    /// The walk is over: the data is fit to be parsed, or it is not. Where
    /// the data ends early or holds a tag that does not exist, the parser
    /// fails there by itself, and the data is fit.
    Stop(bool),
    /// The walk goes on at a position, inside the given frames.
    Go(int, Seq<Frame>),
}

/// The signed length prefix at `at`, if four bytes are there.
pub open spec fn length_at(bytes: Seq<u8>, at: int) -> Option<int> {
    match word_at(bytes, at) {
        Some(word) => Some(
            if word >= 0x8000_0000 {
                word - 0x1_0000_0000
            } else {
                word
            },
        ),
        None => None,
    }
}

/// The position behind the string at `at`: two bytes of length and as many
/// bytes as they say, if the data holds them all.
pub open spec fn after_string(bytes: Seq<u8>, at: int) -> Option<int> {
    if 0 <= at && at + 2 <= bytes.len() && at + 2 + (bytes[at] * 0x100 + bytes[at + 1])
        <= bytes.len() {
        Some(at + 2 + (bytes[at] * 0x100 + bytes[at + 1]))
    } else {
        None
    }
}

/// Bytes of a scalar's payload, by its tag.
pub open spec fn scalar_size(tag: u8) -> int {
    if tag == 1 {
        1
    } else if tag == 2 {
        2
    } else if tag == 3 || tag == 5 {
        4
    } else {
        8
    }
}

/// Bytes of one element of an array, by the array's tag.
pub open spec fn element_size(tag: u8) -> int {
    if tag == 7 {
        1
    } else if tag == 11 {
        4
    } else {
        8
    }
}

/// Steps over the payload of tag `tag` that starts at `at`, with `depth`
/// lists and compounds around it, of which `open` are not at their end. An
/// array or list whose length is negative, or greater than what the rest of
/// the data can fill, makes the data unfit; so does a list with more
/// elements than the address space has room for, and a list or compound
/// with [`MAX_DEPTH`] others around it.
pub open spec fn enter(bytes: Seq<u8>, tag: u8, at: int, open: Seq<Frame>, depth: int) -> Step {
    if 1 <= tag <= 6 {
        if at + scalar_size(tag) <= bytes.len() {
            Step::Go(at + scalar_size(tag), open)
        } else {
            Step::Stop(true)
        }
    } else if tag == 7 || tag == 11 || tag == 12 {
        match length_at(bytes, at) {
            None => Step::Stop(true),
            Some(length) => if length < 0 || length * element_size(tag) > bytes.len() - (at + 4) {
                Step::Stop(false)
            } else {
                Step::Go(at + 4 + length * element_size(tag), open)
            },
        }
    } else if tag == 8 {
        match after_string(bytes, at) {
            None => Step::Stop(true),
            Some(next) => Step::Go(next, open),
        }
    } else if tag == 9 {
        match length_at(bytes, at + 1) {
            None => Step::Stop(true),
            Some(length) => if length < 0 || length > bytes.len() - (at + 5) || length
                * ELEMENT_ROOM > isize::MAX {
                Step::Stop(false)
            } else if length == 0 {
                Step::Go(at + 5, open)
            } else if depth >= MAX_DEPTH {
                Step::Stop(false)
            } else {
                Step::Go(
                    at + 5,
                    open.push(
                        Frame::Items {
                            tag: bytes[at],
                            left: length as u32,
                            depth: (depth + 1) as usize,
                        },
                    ),
                )
            },
        }
    } else if tag == 10 {
        if depth >= MAX_DEPTH {
            Step::Stop(false)
        } else {
            Step::Go(at, open.push(Frame::Fields { depth: (depth + 1) as usize }))
        }
    } else {
        Step::Stop(true)
    }
}

/// The frames after one payload of the innermost list was taken from it.
pub open spec fn one_taken(open: Seq<Frame>) -> Seq<Frame> {
    match open.last() {
        Frame::Items { tag, left, depth } => if left > 1 {
            open.drop_last().push(Frame::Items { tag, left: (left - 1) as u32, depth })
        } else {
            open.drop_last()
        },
        Frame::Fields { .. } => open,
    }
}

/// One step of the walk at `at`, inside the frames `open`, of which there
/// is at least one. In a compound it takes an end tag, or a field's tag and
/// name and then the field's payload; in a list it takes the next payload.
pub open spec fn step(bytes: Seq<u8>, at: int, open: Seq<Frame>) -> Step {
    match open.last() {
        Frame::Fields { depth } => match byte_at(bytes, at) {
            None => Step::Stop(true),
            Some(tag) => if tag == 0 {
                Step::Go(at + 1, open.drop_last())
            } else {
                match after_string(bytes, at + 1) {
                    None => Step::Stop(true),
                    Some(next) => enter(bytes, tag, next, open, depth as int),
                }
            },
        },
        Frame::Items { tag, left, depth } => enter(bytes, tag, at, one_taken(open), depth as int),
    }
}

/// One for frames whose innermost is a list, zero otherwise: what gets
/// smaller when a step opens a compound without taking a byte.
pub open spec fn pending(open: Seq<Frame>) -> int {
    if open.len() > 0 && open.last() is Items {
        1
    } else {
        0
    }
}

/// Whether the walk from `at`, inside `open`, finds the data fit to be parsed.
pub open spec fn walk(bytes: Seq<u8>, at: int, open: Seq<Frame>) -> bool
    decreases bytes.len() - at, pending(open),
{
    if open.len() == 0 || at > bytes.len() {
        true
    } else {
        match step(bytes, at, open) {
            Step::Stop(fit) => fit,
            Step::Go(next, rest) => walk(bytes, next, rest),
        }
    }
}

/// Whether `bytes` can be handed to the parser: the walk over a root
/// compound finds them fit. Data that does not start with a named compound
/// is fit, because the parser refuses it at once.
pub open spec fn lengths_fit(bytes: Seq<u8>) -> bool {
    if byte_at(bytes, 0) == Some(10u8) {
        match after_string(bytes, 1) {
            None => true,
            Some(next) => walk(bytes, next, seq![Frame::Fields { depth: 1 }]),
        }
    } else {
        true
    }
}

/// A step that goes on stays inside the data, and it takes at least one
/// byte or turns from a list to the compound that is its next element.
pub proof fn lemma_step_goes_on(bytes: Seq<u8>, at: int, open: Seq<Frame>)
    requires
        0 <= at <= bytes.len(),
        open.len() > 0,
    ensures
        match step(bytes, at, open) {
            Step::Stop(_) => true,
            Step::Go(next, rest) => at <= next <= bytes.len() && (at < next || pending(rest)
                < pending(open)),
        },
{
}

/// Steps over the string at `at`.
fn skip_string(bytes: &[u8], at: usize) -> (next: Option<usize>)
    requires
        at <= bytes@.len(),
    ensures
        match after_string(bytes@, at as int) {
            Some(position) => next is Some && next->0 == position,
            None => next is None,
        },
{
    let rest: usize = bytes.len() - at;
    if rest < 2 {
        return None;
    }
    let size: usize = bytes[at] as usize * 0x100 + bytes[at + 1] as usize;
    if rest - 2 < size {
        return None;
    }
    Some(at + 2 + size)
}

/// Reads the signed length prefix at `at`.
fn read_length(bytes: &[u8], at: usize) -> (length: Option<i64>)
    ensures
        match length_at(bytes@, at as int) {
            Some(expected) => length is Some && length->0 == expected && -0x8000_0000
                <= expected < 0x8000_0000,
            None => length is None,
        },
{
    match read_word(bytes, at as u64) {
        Some(word) => Some(
            if word >= 0x8000_0000 {
                word as i64 - 0x1_0000_0000
            } else {
                word as i64
            },
        ),
        None => None,
    }
}

/// Steps over the payload of tag `tag` at `at`; a list or compound that
/// starts there is put onto `open`. Gives the next position, or how the
/// walk ends.
fn enter_payload(
    bytes: &[u8],
    tag: u8,
    at: usize,
    open: &mut Vec<Frame>,
    depth: usize,
) -> (next: Result<usize, bool>)
    requires
        at <= bytes@.len(),
        depth <= MAX_DEPTH,
        shallow(old(open)@),
    ensures
        match enter(bytes@, tag, at as int, old(open)@, depth as int) {
            Step::Stop(fit) => next == Err::<usize, bool>(fit),
            Step::Go(position, frames) => next is Ok && next->Ok_0 == position && final(open)@
                == frames && shallow(frames),
        },
{
    let rest: usize = bytes.len() - at;
    if 1 <= tag && tag <= 6 {
        let size: usize = if tag == 1 {
            1
        } else if tag == 2 {
            2
        } else if tag == 3 || tag == 5 {
            4
        } else {
            8
        };
        if size <= rest {
            Ok(at + size)
        } else {
            Err(true)
        }
    } else if tag == 7 || tag == 11 || tag == 12 {
        let size: u64 = if tag == 7 {
            1
        } else if tag == 11 {
            4
        } else {
            8
        };
        match read_length(bytes, at) {
            None => Err(true),
            Some(length) => {
                if length < 0 || length as u64 * size > (rest - 4) as u64 {
                    Err(false)
                } else {
                    Ok(at + 4 + (length as u64 * size) as usize)
                }
            },
        }
    } else if tag == 8 {
        match skip_string(bytes, at) {
            None => Err(true),
            Some(next) => Ok(next),
        }
    } else if tag == 9 {
        if rest < 1 {
            return Err(true);
        }
        match read_length(bytes, at + 1) {
            None => Err(true),
            Some(length) => {
                if length < 0 || length as u64 > (rest - 5) as u64 || length as u64
                    > isize::MAX as u64 / ELEMENT_ROOM as u64 {
                    Err(false)
                } else if length == 0 {
                    Ok(at + 5)
                } else if depth >= MAX_DEPTH {
                    Err(false)
                } else {
                    open.push(Frame::Items { tag: bytes[at], left: length as u32, depth: depth + 1 });
                    Ok(at + 5)
                }
            },
        }
    } else if tag == 10 {
        if depth >= MAX_DEPTH {
            Err(false)
        } else {
            open.push(Frame::Fields { depth: depth + 1 });
            Ok(at)
        }
    } else {
        Err(true)
    }
}

/// Takes one step of the walk at `at`, inside the frames `open`.
fn advance(bytes: &[u8], at: usize, open: &mut Vec<Frame>) -> (next: Result<usize, bool>)
    requires
        at <= bytes@.len(),
        old(open)@.len() > 0,
        shallow(old(open)@),
    ensures
        match step(bytes@, at as int, old(open)@) {
            Step::Stop(fit) => next == Err::<usize, bool>(fit),
            Step::Go(position, frames) => next is Ok && next->Ok_0 == position && final(open)@
                == frames && shallow(frames),
        },
{
    let innermost = open[open.len() - 1];
    match innermost {
        Frame::Fields { depth } => {
            if at >= bytes.len() {
                return Err(true);
            }
            let tag: u8 = bytes[at];
            if tag == 0 {
                open.pop();
                return Ok(at + 1);
            }
            match skip_string(bytes, at + 1) {
                None => Err(true),
                Some(next) => enter_payload(bytes, tag, next, open, depth),
            }
        },
        Frame::Items { tag, left, depth } => {
            open.pop();
            if left > 1 {
                open.push(Frame::Items { tag, left: left - 1, depth });
            }
            enter_payload(bytes, tag, at, open, depth)
        },
    }
}

/// Walks over `bytes` and says whether they are fit to be parsed: no length
/// prefix on the parser's way is negative or greater than what the rest of
/// the data can fill, and nothing is nested deeper than [`MAX_DEPTH`].
pub fn check_lengths(bytes: &[u8]) -> (fit: bool)
    ensures
        fit == lengths_fit(bytes@),
{
    if bytes.len() == 0 || bytes[0] != 10 {
        return true;
    }
    let mut at: usize = match skip_string(bytes, 1) {
        Some(next) => next,
        None => {
            return true;
        },
    };
    let mut open: Vec<Frame> = Vec::new();
    open.push(Frame::Fields { depth: 1 });
    while open.len() > 0
        invariant
            at <= bytes@.len(),
            shallow(open@),
            lengths_fit(bytes@) == walk(bytes@, at as int, open@),
        decreases bytes@.len() - at, pending(open@),
    {
        proof {
            lemma_step_goes_on(bytes@, at as int, open@);
        }
        match advance(bytes, at, &mut open) {
            Ok(next) => {
                at = next;
            },
            Err(fit) => {
                return fit;
            },
        }
    }
    true
}

} // verus!
