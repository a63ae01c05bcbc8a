//! Tokenizer and block assembler: splits the archive byte stream into
//! NUL-terminated text tokens and groups them into raw blocks, reading a
//! 4-byte little-endian id after every block-opening token and checking that
//! dialogue sequence indices run contiguously from zero within each block.

use crate::block::{BlockUnmerged, BlockUnmergedV, Item, ItemV};
use crate::text::{is_story_block, spec_is_story_block};
use vstd::bytes::{spec_u32_from_le_bytes, u32_from_le_bytes};
use vstd::prelude::*;
use vstd::slice::{slice_subrange, slice_to_vec};
use vstd::utf8::{decode_utf8, valid_utf8};

verus! {

/// Why an archive was rejected as structurally malformed.
#[derive(Clone, Copy, Debug, PartialEq, Eq, Structural)]
pub enum ParseError {
    /// The leading 4-byte magic number is not an accepted value.
    BadMagic,
    /// No NUL separator follows the current token text.
    ExpectedSeparator,
    /// The stream ends inside a 4-byte field.
    Truncated,
    /// An item token arrived before any block-opening token.
    NoOpenBlock,
    /// A sequence index does not equal the running expected counter.
    IndexMismatch,
}

/// Index of the first zero byte of `s`, or `-1` when `s` has none.
pub open spec fn find_zero(s: Seq<u8>) -> int
    decreases s.len(),
{
    if s.len() == 0 {
        -1
    } else if s[0] == 0u8 {
        0
    } else {
        let r = find_zero(s.drop_first());
        if r < 0 {
            -1
        } else {
            r + 1
        }
    }
}

/// `find_zero` names the first zero byte: nothing before it is zero, and a
/// result of `-1` means no byte is zero at all.
pub proof fn lemma_find_zero(s: Seq<u8>)
    ensures
        find_zero(s) == -1 ==> forall|i: int| 0 <= i < s.len() ==> s[i] != 0u8,
        find_zero(s) >= 0 ==> 0 <= find_zero(s) < s.len() && s[find_zero(s)] == 0u8,
        find_zero(s) >= 0 ==> forall|i: int| 0 <= i < find_zero(s) ==> s[i] != 0u8,
    decreases s.len(),
{
    if s.len() == 0 {
    } else if s[0] == 0u8 {
    } else {
        lemma_find_zero(s.drop_first());
        let t = s.drop_first();
        assert forall|i: int| 0 <= i < s.len() && find_zero(s) == -1 implies s[i] != 0u8 by {
            if i > 0 {
                assert(s[i] == t[i - 1]);
            }
        }
        if find_zero(t) >= 0 {
            assert forall|i: int| 0 <= i < find_zero(s) implies s[i] != 0u8 by {
                if i > 0 {
                    assert(s[i] == t[i - 1]);
                }
            }
        }
    }
}

/// Relies on `String::from_utf8`: it succeeds exactly on valid UTF-8 input
/// and returns the string whose UTF-8 encoding is that input.
#[verifier::external_body]
fn string_from_utf8(bytes: Vec<u8>) -> (r: Option<String>)
    ensures
        r is Some <==> valid_utf8(bytes@),
        r matches Some(s) ==> s@ == decode_utf8(bytes@),
{
    String::from_utf8(bytes).ok()
}

/// A token opens a new block when it starts with `[` or `_`, or follows the
/// story-block naming rule.
pub open spec fn spec_is_block_start(s: Seq<char>) -> bool {
    (s.len() > 0 && (s[0] == '[' || s[0] == '_')) || spec_is_story_block(s)
}

/// Whether a token opens a new block.
pub fn is_block_start(tok: &str) -> (r: bool)
    ensures
        r == spec_is_block_start(tok@),
{
    if tok.unicode_len() > 0 {
        let c = tok.get_char(0);
        if c == '[' || c == '_' {
            return true;
        }
    }
    is_story_block(tok)
}

/// Whether a token is a sequence-index marker: exactly six ASCII digits.
pub fn is_index_token(tok: &str) -> (r: bool)
    ensures
        r == crate::text::spec_is_index_token(tok@),
{
    if tok.unicode_len() != 6 {
        return false;
    }
    let mut i: usize = 0;
    while i < 6
        invariant
            0 <= i <= 6,
            tok@.len() == 6,
            forall|j: int| 0 <= j < i ==> #[trigger] crate::text::spec_is_digit(tok@[j]),
        decreases 6 - i,
    {
        let u: u32 = tok.get_char(i) as u32;
        if u < 48 || u > 57 {
            proof {
                assert(!crate::text::spec_is_digit(tok@[i as int]));
            }
            return false;
        }
        i += 1;
    }
    true
}

/// Numeric value of a six-digit sequence-index token.
pub open spec fn spec_index_value(s: Seq<char>) -> int
    recommends
        crate::text::spec_is_index_token(s),
{
    (s[0] as u32 - 48) * 100000 + (s[1] as u32 - 48) * 10000 + (s[2] as u32 - 48) * 1000 + (
    s[3] as u32 - 48) * 100 + (s[4] as u32 - 48) * 10 + (s[5] as u32 - 48)
}

/// Parses the numeric value of a sequence-index token.
pub fn index_value(tok: &str) -> (r: usize)
    requires
        crate::text::spec_is_index_token(tok@),
    ensures
        r == spec_index_value(tok@),
        r <= 999999,
{
    proof {
        assert(crate::text::spec_is_digit(tok@[0]));
        assert(crate::text::spec_is_digit(tok@[1]));
        assert(crate::text::spec_is_digit(tok@[2]));
        assert(crate::text::spec_is_digit(tok@[3]));
        assert(crate::text::spec_is_digit(tok@[4]));
        assert(crate::text::spec_is_digit(tok@[5]));
    }
    let d0: u32 = tok.get_char(0) as u32 - 48;
    let d1: u32 = tok.get_char(1) as u32 - 48;
    let d2: u32 = tok.get_char(2) as u32 - 48;
    let d3: u32 = tok.get_char(3) as u32 - 48;
    let d4: u32 = tok.get_char(4) as u32 - 48;
    let d5: u32 = tok.get_char(5) as u32 - 48;
    (d0 * 100000 + d1 * 10000 + d2 * 1000 + d3 * 100 + d4 * 10 + d5) as usize
}

/// Appends one item to the last block of the sequence.
pub open spec fn push_item(blocks: Seq<BlockUnmergedV>, item: ItemV) -> Seq<BlockUnmergedV>
    recommends
        blocks.len() > 0,
{
    let last = blocks.last();
    blocks.update(blocks.len() - 1, BlockUnmergedV { items: last.items.push(item), ..last })
}

/// One step of assembly consumes the token up to the first NUL separator
/// (whose bytes must be valid UTF-8), then either opens a block and reads its
/// 4-byte little-endian id, or appends an item to the open block, holding
/// sequence indices to the running expected counter.
pub open spec fn spec_parse_items(
    bytes: Seq<u8>,
    blocks: Seq<BlockUnmergedV>,
    expected: nat,
) -> Result<Seq<BlockUnmergedV>, ParseError>
    decreases bytes.len(),
    via spec_parse_items_decreases
{
    if bytes.len() == 0 {
        Ok(blocks)
    } else {
        let z = find_zero(bytes);
        if z < 0 || !valid_utf8(bytes.take(z)) {
            Err(ParseError::ExpectedSeparator)
        } else {
            let tok = decode_utf8(bytes.take(z));
            let rest = bytes.skip(z + 1);
            if spec_is_block_start(tok) {
                if rest.len() < 4 {
                    Err(ParseError::Truncated)
                } else {
                    spec_parse_items(
                        rest.skip(4),
                        blocks.push(
                            BlockUnmergedV {
                                name: tok,
                                id: spec_u32_from_le_bytes(rest.take(4)),
                                items: Seq::empty(),
                            },
                        ),
                        0,
                    )
                }
            } else if crate::text::spec_is_index_token(tok) {
                if spec_index_value(tok) != expected {
                    Err(ParseError::IndexMismatch)
                } else if blocks.len() == 0 {
                    Err(ParseError::NoOpenBlock)
                } else {
                    spec_parse_items(
                        rest,
                        push_item(blocks, ItemV::Index(spec_index_value(tok) as usize)),
                        expected + 1,
                    )
                }
            } else {
                if blocks.len() == 0 {
                    Err(ParseError::NoOpenBlock)
                } else {
                    spec_parse_items(rest, push_item(blocks, ItemV::Script(tok)), expected)
                }
            }
        }
    }
}

#[via_fn]
proof fn spec_parse_items_decreases(bytes: Seq<u8>, blocks: Seq<BlockUnmergedV>, expected: nat) {
    lemma_find_zero(bytes);
}

/// The whole archive: a 4-byte little-endian magic number that must be `0xA`
/// or `0xE`, then the token stream assembled into raw blocks.
pub open spec fn spec_parse_archive(bytes: Seq<u8>) -> Result<Seq<BlockUnmergedV>, ParseError> {
    if bytes.len() < 4 {
        Err(ParseError::Truncated)
    } else {
        let magic = spec_u32_from_le_bytes(bytes.take(4));
        if magic != 0xA && magic != 0xE {
            Err(ParseError::BadMagic)
        } else {
            spec_parse_items(bytes.skip(4), Seq::empty(), 0)
        }
    }
}

/// Tokenizes and assembles an archive byte stream into raw blocks, exactly as
/// [`spec_parse_archive`] describes.
pub fn parse_archive(input: &Vec<u8>) -> (r: Result<Vec<BlockUnmerged>, ParseError>)
    ensures
        match r {
            Ok(blocks) => spec_parse_archive(input@) == Ok::<_, ParseError>(
                crate::block::view_blocks_unmerged(blocks@),
            ),
            Err(e) => spec_parse_archive(input@) == Err::<Seq<BlockUnmergedV>, _>(e),
        },
{
    let n = input.len();
    if n < 4 {
        return Err(ParseError::Truncated);
    }
    let magic = u32_from_le_bytes(slice_subrange(input.as_slice(), 0, 4));
    assert(input@.subrange(0, 4) =~= input@.take(4));
    if magic != 0xA && magic != 0xE {
        return Err(ParseError::BadMagic);
    }
    let ghost target = spec_parse_items(input@.skip(4), Seq::empty(), 0);
    let mut pos: usize = 4;
    let mut blocks: Vec<BlockUnmerged> = Vec::new();
    let mut expected: usize = 0;
    proof {
        assert(crate::block::view_blocks_unmerged(blocks@) =~= Seq::<BlockUnmergedV>::empty());
    }
    while pos < n
        invariant
            n == input@.len(),
            4 <= pos <= n,
            expected <= pos,
            spec_parse_archive(input@) == target,
            spec_parse_items(
                input@.skip(pos as int),
                crate::block::view_blocks_unmerged(blocks@),
                expected as nat,
            ) == target,
        decreases n - pos,
    {
        let ghost rem = input@.skip(pos as int);
        let ghost bv = crate::block::view_blocks_unmerged(blocks@);
        // Find the NUL separator that ends the current token.
        let mut z: usize = pos;
        while z < n && input[z] != 0u8
            invariant
                pos <= z <= n,
                n == input@.len(),
                forall|i: int| pos <= i < z ==> input@[i] != 0u8,
            decreases n - z,
        {
            z += 1;
        }
        proof {
            lemma_find_zero(rem);
            if z == n {
                assert(forall|i: int| 0 <= i < rem.len() ==> rem[i] != 0u8);
                assert(find_zero(rem) == -1) by {
                    if find_zero(rem) >= 0 {
                        assert(rem[find_zero(rem)] == 0u8);
                    }
                }
            } else {
                assert(rem[z - pos] == 0u8);
                assert(forall|i: int| 0 <= i < z - pos ==> rem[i] != 0u8);
                assert(find_zero(rem) == z - pos) by {
                    let f = find_zero(rem);
                    if f == -1 {
                        assert(rem[z - pos] != 0u8);
                    } else if f < z - pos {
                        assert(rem[f] != 0u8);
                    } else if f > z - pos {
                        assert(rem[z - pos] != 0u8);
                    }
                }
            }
        }
        if z == n {
            return Err(ParseError::ExpectedSeparator);
        }
        let tok_bytes = slice_to_vec(slice_subrange(input.as_slice(), pos, z));
        proof {
            assert(input@.subrange(pos as int, z as int) =~= rem.take(z - pos));
        }
        let tok = match string_from_utf8(tok_bytes) {
            None => {
                return Err(ParseError::ExpectedSeparator);
            },
            Some(t) => t,
        };
        if is_block_start(tok.as_str()) {
            if n - (z + 1) < 4 {
                return Err(ParseError::Truncated);
            }
            let id = u32_from_le_bytes(slice_subrange(input.as_slice(), z + 1, z + 5));
            proof {
                assert(input@.subrange(z + 1, z + 5) =~= rem.skip(z - pos + 1).take(4));
            }
            blocks.push(BlockUnmerged { name: tok, id, items: Vec::new() });
            expected = 0;
            proof {
                assert(rem.skip(z - pos + 1).skip(4) =~= input@.skip(z + 5));
                assert(crate::block::view_blocks_unmerged(blocks@) =~~= bv.push(
                    BlockUnmergedV {
                        name: decode_utf8(rem.take(z - pos)),
                        id: spec_u32_from_le_bytes(rem.skip(z - pos + 1).take(4)),
                        items: Seq::empty(),
                    },
                ));
            }
            pos = z + 5;
        } else if is_index_token(tok.as_str()) {
            let v = index_value(tok.as_str());
            if v != expected {
                return Err(ParseError::IndexMismatch);
            }
            if blocks.len() == 0 {
                return Err(ParseError::NoOpenBlock);
            }
            let mut last = blocks.pop().unwrap();
            last.items.push(Item::Index(v));
            blocks.push(last);
            proof {
                assert(rem.skip(z - pos + 1) =~= input@.skip(z + 1));
                assert(crate::block::view_blocks_unmerged(blocks@) =~~= push_item(
                    bv,
                    ItemV::Index(spec_index_value(decode_utf8(rem.take(z - pos))) as usize),
                ));
            }
            expected += 1;
            pos = z + 1;
        } else {
            if blocks.len() == 0 {
                return Err(ParseError::NoOpenBlock);
            }
            let mut last = blocks.pop().unwrap();
            last.items.push(Item::Script(tok));
            blocks.push(last);
            proof {
                assert(rem.skip(z - pos + 1) =~= input@.skip(z + 1));
                assert(crate::block::view_blocks_unmerged(blocks@) =~~= push_item(
                    bv,
                    ItemV::Script(decode_utf8(rem.take(z - pos))),
                ));
            }
            pos = z + 1;
        }
    }
    proof {
        assert(input@.skip(pos as int) =~= Seq::<u8>::empty());
    }
    Ok(blocks)
}

} // verus!
