//! The readable-transcript renderer: dialogue blocks only, each as a heading
//! line with the block's name, then the speaker's name (when known) above
//! each line's text, with a blank separator line after every entry.

use crate::block::{view_blocks, view_scripts, Block, BlockV, Data, Script, ScriptV, SpeakerV};
use vstd::prelude::*;
use vstd::string::StringExecFns;

verus! {

/// The rendering of one dialogue line: the speaker's name on its own line
/// when named, then the text, then a blank line.
pub open spec fn spec_markdown_script(s: ScriptV) -> Seq<char> {
    (match s.speaker {
        Some(SpeakerV::Named(n)) => n + "\n"@,
        _ => Seq::empty(),
    }) + s.text + "\n\n"@
}

/// The rendering of a sequence of dialogue lines, in order.
pub open spec fn spec_markdown_scripts(scripts: Seq<ScriptV>) -> Seq<char>
    decreases scripts.len(),
{
    if scripts.len() == 0 {
        Seq::empty()
    } else {
        spec_markdown_scripts(scripts.drop_last()) + spec_markdown_script(scripts.last())
    }
}

/// The rendering of one block: a heading and its lines for a dialogue block,
/// nothing at all for any other payload.
pub open spec fn spec_markdown_block(b: BlockV) -> Seq<char> {
    if b.data is Scripts {
        "# "@ + b.name + "\n\n"@ + spec_markdown_scripts(b.data->Scripts_0)
    } else {
        Seq::empty()
    }
}

/// The rendering of a block sequence, in order.
pub open spec fn spec_markdown(blocks: Seq<BlockV>) -> Seq<char>
    decreases blocks.len(),
{
    if blocks.len() == 0 {
        Seq::empty()
    } else {
        spec_markdown(blocks.drop_last()) + spec_markdown_block(blocks.last())
    }
}

/// The readable transcript renders the dialogue blocks alone: list and
/// mapping blocks contribute nothing, in any position.
pub proof fn lemma_markdown_only_dialogue(blocks: Seq<BlockV>)
    ensures
        spec_markdown(blocks) == spec_markdown(blocks.filter(|b: BlockV| b.data is Scripts)),
    decreases blocks.len(),
{
    reveal_with_fuel(Seq::<BlockV>::filter, 2);
    let pred = |b: BlockV| b.data is Scripts;
    if blocks.len() == 0 {
        assert(blocks.filter(pred) == blocks);
    } else {
        lemma_markdown_only_dialogue(blocks.drop_last());
        let sub = blocks.drop_last().filter(pred);
        if pred(blocks.last()) {
            assert(blocks.filter(pred) == sub.push(blocks.last()));
            assert(sub.push(blocks.last()).drop_last() =~= sub);
            assert(sub.push(blocks.last()).last() == blocks.last());
        } else {
            assert(blocks.filter(pred) == sub);
            assert(spec_markdown_block(blocks.last()) =~= Seq::<char>::empty());
            assert(spec_markdown(blocks) =~= spec_markdown(blocks.drop_last()));
        }
    }
}

/// Renders the readable transcript of the block sequence, exactly as
/// [`spec_markdown`] describes.
pub fn to_markdown(blocks: &Vec<Block>) -> (r: String)
    ensures
        r@ == spec_markdown(view_blocks(blocks@)),
{
    let ghost bv = view_blocks(blocks@);
    let mut ret = String::new();
    let mut i: usize = 0;
    while i < blocks.len()
        invariant
            0 <= i <= blocks@.len(),
            bv == view_blocks(blocks@),
            forall|j: int| 0 <= j < blocks@.len() ==> bv[j] == #[trigger] blocks@[j]@,
            ret@ =~= spec_markdown(bv.take(i as int)),
        decreases blocks@.len() - i,
    {
        proof {
            assert(bv.take(i + 1).drop_last() =~= bv.take(i as int));
            assert(bv.take(i + 1).last() == bv[i as int]);
        }
        let block = &blocks[i];
        if let Data::Scripts(scripts) = &block.data {
            let ghost sv = view_scripts(scripts@);
            proof {
                assert(bv[i as int].data->Scripts_0 == sv);
            }
            ret.append("# ");
            ret.append(block.name.as_str());
            ret.append("\n\n");
            let ghost head = ret@;
            let mut j: usize = 0;
            while j < scripts.len()
                invariant
                    0 <= j <= scripts@.len(),
                    sv == view_scripts(scripts@),
                    forall|t: int| 0 <= t < scripts@.len() ==> sv[t] == #[trigger] scripts@[t]@,
                    head == ret@.take(head.len() as int) && ret@ =~= head
                        + spec_markdown_scripts(sv.take(j as int)),
                decreases scripts@.len() - j,
            {
                proof {
                    assert(sv.take(j + 1).drop_last() =~= sv.take(j as int));
                    assert(sv.take(j + 1).last() == sv[j as int]);
                }
                let sc = &scripts[j];
                if let Some(sp) = &sc.speaker {
                    if let crate::block::Speaker::Named(nm) = sp {
                        ret.append(nm.as_str());
                        ret.append("\n");
                    }
                }
                ret.append(sc.text.as_str());
                ret.append("\n\n");
                j += 1;
                proof {
                    assert(ret@ =~= head + spec_markdown_scripts(sv.take(j as int)));
                }
            }
            proof {
                assert(sv.take(sv.len() as int) =~= sv);
                assert(ret@ =~= spec_markdown(bv.take(i + 1)));
            }
        } else {
            proof {
                assert(spec_markdown_block(bv[i as int]) =~= Seq::<char>::empty());
                assert(ret@ =~= spec_markdown(bv.take(i + 1)));
            }
        }
        i += 1;
    }
    proof {
        assert(bv.take(bv.len() as int) =~= bv);
    }
    ret
}

} // verus!
