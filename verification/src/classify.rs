//! Block classification: converts a raw block into its typed payload. A block
//! of inline text only becomes a text list, or a key-to-text mapping when it
//! carries the reserved mapping-block name; a block that interleaves sequence
//! indices and text becomes an ordered sequence of dialogue lines.

use crate::block::{
    spec_map_block_name, view_pairs, view_scripts, view_strings, Block, BlockUnmerged,
    BlockUnmergedV, BlockV, Data, DataV, Item, ItemV, Script, ScriptV,
};
use crate::text::string_eq_str;
use vstd::prelude::*;

verus! {

/// Why a raw block could not be classified.
#[derive(Clone, Copy, Debug, PartialEq, Eq, Structural)]
pub enum MergeError {
    /// A mapping block holds an odd number of items, so positional pairing
    /// is impossible.
    OddMapItems,
    /// A full dialogue pair is not (sequence index, inline text) in that
    /// order.
    MismatchedPair,
    /// A dialogue block ends with an item left over after pairing.
    UnpairedItem,
}

/// All items of the block are inline text.
pub open spec fn spec_all_text(items: Seq<ItemV>) -> bool {
    forall|i: int| 0 <= i < items.len() ==> items[i] is Script
}

/// The text carried by each item, in order.
pub open spec fn spec_texts(items: Seq<ItemV>) -> Seq<Seq<char>>
    recommends
        spec_all_text(items),
{
    items.map_values(|it: ItemV| it->Script_0)
}

/// Consecutive texts paired two at a time into key/value entries.
pub open spec fn spec_pairs(texts: Seq<Seq<char>>) -> Seq<(Seq<char>, Seq<char>)> {
    Seq::new(texts.len() / 2, |i: int| (texts[2 * i], texts[2 * i + 1]))
}

/// Every full consecutive pair of items is (sequence index, inline text).
pub open spec fn spec_good_pairs(items: Seq<ItemV>) -> bool {
    forall|i: int|
        0 <= i < items.len() / 2 ==> #[trigger] items[2 * i] is Index && items[2 * i + 1] is Script
}

/// The dialogue lines built from consecutive (index, text) pairs, with
/// speaker identity left unset.
pub open spec fn spec_dialogue(items: Seq<ItemV>) -> Seq<ScriptV>
    recommends
        spec_good_pairs(items),
{
    Seq::new(
        items.len() / 2,
        |i: int|
            ScriptV {
                speaker: None,
                index: Some(items[2 * i]->Index_0),
                text: items[2 * i + 1]->Script_0,
            },
    )
}

/// Classification of one raw block: all-text blocks become a mapping (under
/// the reserved name, with an even item count) or a list; mixed blocks must
/// pair (index, text) exactly.
pub open spec fn spec_merge_block(u: BlockUnmergedV) -> Result<BlockV, MergeError> {
    if spec_all_text(u.items) {
        if u.name == spec_map_block_name() {
            if u.items.len() % 2 != 0 {
                Err(MergeError::OddMapItems)
            } else {
                Ok(
                    BlockV {
                        name: u.name,
                        id: u.id,
                        data: DataV::TextMap(spec_pairs(spec_texts(u.items))),
                    },
                )
            }
        } else {
            Ok(BlockV { name: u.name, id: u.id, data: DataV::List(spec_texts(u.items)) })
        }
    } else {
        if !spec_good_pairs(u.items) {
            Err(MergeError::MismatchedPair)
        } else if u.items.len() % 2 != 0 {
            Err(MergeError::UnpairedItem)
        } else {
            Ok(BlockV { name: u.name, id: u.id, data: DataV::Scripts(spec_dialogue(u.items)) })
        }
    }
}

/// Classifies one raw block into a typed block, exactly as
/// [`spec_merge_block`] describes.
pub fn merge_block(unmerged: BlockUnmerged) -> (r: Result<Block, MergeError>)
    ensures
        match r {
            Ok(b) => spec_merge_block(unmerged@) == Ok::<_, MergeError>(b@),
            Err(e) => spec_merge_block(unmerged@) == Err::<BlockV, _>(e),
        },
{
    let BlockUnmerged { name, id, items } = unmerged;
    let ghost orig = unmerged@.items;
    proof {
        assert(orig.len() == items@.len());
        assert(forall|j: int| 0 <= j < items@.len() ==> orig[j] == #[trigger] items@[j]@);
    }
    let n = items.len();
    let mut all_text = true;
    let mut i: usize = 0;
    while i < n
        invariant
            n == items@.len(),
            orig == items@.map_values(|it: Item| it@),
            0 <= i <= n,
            all_text ==> forall|j: int| 0 <= j < i ==> orig[j] is Script,
            !all_text ==> !spec_all_text(orig),
        decreases n - i,
    {
        if let Item::Index(_) = &items[i] {
            proof {
                assert(orig[i as int] is Index);
            }
            all_text = false;
        }
        i += 1;
    }
    proof {
        assert(all_text == spec_all_text(orig));
    }
    if all_text {
        if string_eq_str(&name, "[name2]") {
            if items.len() % 2 != 0 {
                return Err(MergeError::OddMapItems);
            }
            let mut map: Vec<(String, String)> = Vec::new();
            let mut k: usize = 0;
            while k < items.len() / 2
                invariant
                    spec_all_text(orig),
                    orig.len() % 2 == 0,
                    orig == items@.map_values(|it: Item| it@),
                    forall|j: int| 0 <= j < items@.len() ==> orig[j] == #[trigger] items@[j]@,
                    k == map@.len(),
                    2 * k <= items@.len(),
                    view_pairs(map@) =~= spec_pairs(spec_texts(orig)).take(k as int),
                decreases items@.len() - 2 * k,
            {
                let key = match &items[2 * k] {
                    Item::Script(s) => s.clone(),
                    Item::Index(_) => {
                        proof {
                            assert(items@[2 * k as int]@ is Index);
                            assert(orig[2 * k as int] is Index);
                        }
                        vstd::pervasive::unreached()
                    },
                };
                let val = match &items[2 * k + 1] {
                    Item::Script(s) => s.clone(),
                    Item::Index(_) => {
                        proof {
                            assert(items@[2 * k as int + 1]@ is Index);
                            assert(orig[2 * k as int + 1] is Index);
                        }
                        vstd::pervasive::unreached()
                    },
                };
                map.push((key, val));
                k += 1;
                proof {
                    assert(view_pairs(map@) =~= spec_pairs(spec_texts(orig)).take(k as int));
                }
            }
            proof {
                assert(view_pairs(map@) =~= spec_pairs(spec_texts(orig)));
            }
            Ok(Block { name, id, data: Data::TextMap(map) })
        } else {
            let mut list: Vec<String> = Vec::new();
            let mut k: usize = 0;
            while k < items.len()
                invariant
                    spec_all_text(orig),
                    orig == items@.map_values(|it: Item| it@),
                    forall|j: int| 0 <= j < items@.len() ==> orig[j] == #[trigger] items@[j]@,
                    k == list@.len(),
                    k <= items@.len(),
                    view_strings(list@) =~= spec_texts(orig).take(k as int),
                decreases items@.len() - k,
            {
                let text = match &items[k] {
                    Item::Script(s) => s.clone(),
                    Item::Index(_) => {
                        proof {
                            assert(items@[k as int]@ is Index);
                            assert(orig[k as int] is Index);
                        }
                        vstd::pervasive::unreached()
                    },
                };
                list.push(text);
                k += 1;
                proof {
                    assert(view_strings(list@) =~= spec_texts(orig).take(k as int));
                }
            }
            proof {
                assert(view_strings(list@) =~= spec_texts(orig));
            }
            Ok(Block { name, id, data: Data::List(list) })
        }
    } else {
        let mut scripts: Vec<Script> = Vec::new();
        let mut k: usize = 0;
        while k < items.len() / 2
            invariant
                unmerged@.items == orig,
                !spec_all_text(orig),
                orig == items@.map_values(|it: Item| it@),
                forall|j: int| 0 <= j < items@.len() ==> orig[j] == #[trigger] items@[j]@,
                k == scripts@.len(),
                2 * k <= items@.len(),
                forall|j: int|
                    0 <= j < k ==> #[trigger] orig[2 * j] is Index && orig[2 * j + 1] is Script,
                view_scripts(scripts@) =~= spec_dialogue(orig).take(k as int),
            decreases items@.len() - 2 * k,
        {
            match (&items[2 * k], &items[2 * k + 1]) {
                (Item::Index(index), Item::Script(text)) => {
                    scripts.push(Script { speaker: None, index: Some(*index), text: text.clone() });
                    k += 1;
                    proof {
                        assert(view_scripts(scripts@) =~= spec_dialogue(orig).take(k as int));
                    }
                },
                _ => {
                    proof {
                        assert(orig[2 * k as int] == items@[2 * k as int]@);
                        assert(orig[2 * k as int + 1] == items@[2 * k as int + 1]@);
                        assert(!(orig[2 * k as int] is Index && orig[2 * k as int + 1] is Script));
                        assert(!spec_good_pairs(orig));
                    }
                    return Err(MergeError::MismatchedPair);
                },
            }
        }
        proof {
            assert(spec_good_pairs(orig));
        }
        if 2 * k < items.len() {
            proof {
                assert(orig.len() % 2 != 0);
            }
            return Err(MergeError::UnpairedItem);
        }
        proof {
            assert(orig.len() % 2 == 0);
            assert(view_scripts(scripts@) =~= spec_dialogue(orig));
        }
        Ok(Block { name, id, data: Data::Scripts(scripts) })
    }
}

} // verus!
