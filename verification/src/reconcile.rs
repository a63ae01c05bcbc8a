//! Speaker reconciliation: reads the exclusion list out of the reserved
//! selection block, filters each story block's reference transcript by it,
//! checks that the filtered transcript matches the block's dialogue-line
//! count exactly, and assigns speaker identities positionally.

use crate::block::{
    spec_selection_block_name, view_blocks, view_ref_scripts, view_strings, Block, BlockV, Data,
    DataV, ReferenceScript, ReferenceScriptV, Script, ScriptV, Speaker, SpeakerV,
};
use crate::text::{is_story_block, spec_is_story_block, string_eq, string_eq_str};
use vstd::assert_by_contradiction;
use vstd::prelude::*;

verus! {

/// Why reconciliation aborted the run.
#[derive(Clone, Copy, Debug, PartialEq, Eq, Structural)]
pub enum ReconcileError {
    /// A block carries the reserved selection name but no text-list payload.
    SelectionNotList,
    /// A filtered reference transcript's length disagrees with its block's
    /// dialogue-line count.
    LengthMismatch,
}

/// View of the reference table handed in by the caller: block names paired
/// with the transcript loaded for each.
pub open spec fn view_refs(v: Seq<(String, Vec<ReferenceScript>)>) -> Seq<
    (Seq<char>, Seq<ReferenceScriptV>),
> {
    v.map_values(|p: (String, Vec<ReferenceScript>)| (p.0@, view_ref_scripts(p.1@)))
}

/// The first block of the sequence carrying the given name, if any.
pub open spec fn spec_find_named(blocks: Seq<BlockV>, name: Seq<char>) -> Option<BlockV>
    decreases blocks.len(),
{
    if blocks.len() == 0 {
        None
    } else if blocks[0].name == name {
        Some(blocks[0])
    } else {
        spec_find_named(blocks.drop_first(), name)
    }
}

/// When a block at `j` carries the name and nothing before it does, the find
/// returns that block.
pub proof fn lemma_find_named_hit(blocks: Seq<BlockV>, name: Seq<char>, j: int)
    requires
        0 <= j < blocks.len(),
        blocks[j].name == name,
        forall|t: int| 0 <= t < j ==> blocks[t].name != name,
    ensures
        spec_find_named(blocks, name) == Some(blocks[j]),
    decreases j,
{
    if j > 0 {
        lemma_find_named_hit(blocks.drop_first(), name, j - 1);
    }
}

/// When no block carries the name, the find returns nothing.
pub proof fn lemma_find_named_miss(blocks: Seq<BlockV>, name: Seq<char>)
    requires
        forall|t: int| 0 <= t < blocks.len() ==> blocks[t].name != name,
    ensures
        spec_find_named(blocks, name) is None,
    decreases blocks.len(),
{
    if blocks.len() > 0 {
        lemma_find_named_miss(blocks.drop_first(), name);
    }
}

/// The transcript of the first table entry keyed by the given name, if any.
pub open spec fn spec_ref_lookup(
    refs: Seq<(Seq<char>, Seq<ReferenceScriptV>)>,
    name: Seq<char>,
) -> Option<Seq<ReferenceScriptV>>
    decreases refs.len(),
{
    if refs.len() == 0 {
        None
    } else if refs[0].0 == name {
        Some(refs[0].1)
    } else {
        spec_ref_lookup(refs.drop_first(), name)
    }
}

proof fn lemma_ref_lookup_hit(refs: Seq<(Seq<char>, Seq<ReferenceScriptV>)>, name: Seq<char>, j: int)
    requires
        0 <= j < refs.len(),
        refs[j].0 == name,
        forall|t: int| 0 <= t < j ==> refs[t].0 != name,
    ensures
        spec_ref_lookup(refs, name) == Some(refs[j].1),
    decreases j,
{
    if j > 0 {
        lemma_ref_lookup_hit(refs.drop_first(), name, j - 1);
    }
}

proof fn lemma_ref_lookup_miss(refs: Seq<(Seq<char>, Seq<ReferenceScriptV>)>, name: Seq<char>)
    requires
        forall|t: int| 0 <= t < refs.len() ==> refs[t].0 != name,
    ensures
        spec_ref_lookup(refs, name) is None,
    decreases refs.len(),
{
    if refs.len() > 0 {
        lemma_ref_lookup_miss(refs.drop_first(), name);
    }
}

/// The transcript entries whose message is not in the exclusion list, in
/// order.
pub open spec fn spec_filter_refs(r: Seq<ReferenceScriptV>, sel: Seq<Seq<char>>) -> Seq<
    ReferenceScriptV,
>
    decreases r.len(),
{
    if r.len() == 0 {
        Seq::empty()
    } else {
        let rest = spec_filter_refs(r.drop_last(), sel);
        if sel.contains(r.last().message) {
            rest
        } else {
            rest.push(r.last())
        }
    }
}

/// The speaker identity a transcript entry gives: anonymous without a name,
/// else named.
pub open spec fn spec_speaker_of(r: ReferenceScriptV) -> SpeakerV {
    match r.name {
        None => SpeakerV::NoName,
        Some(n) => SpeakerV::Named(n),
    }
}

/// The dialogue lines with every speaker identity assigned positionally from
/// the transcript, or unset when there is none; index and text are untouched.
pub open spec fn spec_set_speakers(
    scripts: Seq<ScriptV>,
    reference: Option<Seq<ReferenceScriptV>>,
) -> Seq<ScriptV>
    recommends
        reference matches Some(f) ==> f.len() == scripts.len(),
{
    Seq::new(
        scripts.len(),
        |i: int|
            ScriptV {
                speaker: match reference {
                    None => None,
                    Some(f) => Some(spec_speaker_of(f[i])),
                },
                index: scripts[i].index,
                text: scripts[i].text,
            },
    )
}

/// A block passes the reconciliation length check: either it is not a story
/// dialogue block, or no transcript was found, or the filtered transcript is
/// exactly as long as the block's dialogue.
pub open spec fn spec_block_ok(
    b: BlockV,
    refs: Seq<(Seq<char>, Seq<ReferenceScriptV>)>,
    sel: Seq<Seq<char>>,
) -> bool {
    (spec_is_story_block(b.name) && b.data is Scripts) ==> match spec_ref_lookup(refs, b.name) {
        None => true,
        Some(r) => spec_filter_refs(r, sel).len() == b.data->Scripts_0.len(),
    }
}

/// Reconciliation of one block: a story dialogue block gets its speakers
/// from its filtered transcript, or all unset when none was found; any other
/// block is unchanged.
pub open spec fn spec_reconcile_block(
    b: BlockV,
    refs: Seq<(Seq<char>, Seq<ReferenceScriptV>)>,
    sel: Seq<Seq<char>>,
) -> BlockV {
    if spec_is_story_block(b.name) && b.data is Scripts {
        let scr = b.data->Scripts_0;
        let assigned = match spec_ref_lookup(refs, b.name) {
            None => spec_set_speakers(scr, None),
            Some(r) => spec_set_speakers(scr, Some(spec_filter_refs(r, sel))),
        };
        BlockV { name: b.name, id: b.id, data: DataV::Scripts(assigned) }
    } else {
        b
    }
}

/// Reconciliation of the whole block sequence: without a selection block all
/// blocks are unchanged; with one whose payload is not a list the run aborts;
/// otherwise every block is reconciled against its transcript, and any length
/// disagreement aborts the run.
pub open spec fn spec_merge_speakers(
    blocks: Seq<BlockV>,
    refs: Seq<(Seq<char>, Seq<ReferenceScriptV>)>,
) -> Result<Seq<BlockV>, ReconcileError> {
    match spec_find_named(blocks, spec_selection_block_name()) {
        None => Ok(blocks),
        Some(sb) => {
            if !(sb.data is List) {
                Err(ReconcileError::SelectionNotList)
            } else {
                let sel = sb.data->List_0;
                if forall|i: int| 0 <= i < blocks.len() ==> spec_block_ok(#[trigger] blocks[i], refs, sel) {
                    Ok(Seq::new(blocks.len(), |i: int| spec_reconcile_block(blocks[i], refs, sel)))
                } else {
                    Err(ReconcileError::LengthMismatch)
                }
            }
        },
    }
}

/// Without a selection block, reconciliation leaves every block exactly as
/// it was: no speaker, list or mapping data is touched.
pub proof fn lemma_missing_selection(
    blocks: Seq<BlockV>,
    refs: Seq<(Seq<char>, Seq<ReferenceScriptV>)>,
)
    requires
        spec_find_named(blocks, spec_selection_block_name()) is None,
    ensures
        spec_merge_speakers(blocks, refs) == Ok::<_, ReconcileError>(blocks),
{
}

/// A story dialogue block without a reference transcript passes the length
/// check, keeps every line's index and text, and only has its speaker
/// identities left unset.
pub proof fn lemma_missing_reference(
    b: BlockV,
    refs: Seq<(Seq<char>, Seq<ReferenceScriptV>)>,
    sel: Seq<Seq<char>>,
)
    requires
        spec_is_story_block(b.name),
        b.data is Scripts,
        spec_ref_lookup(refs, b.name) is None,
    ensures
        spec_block_ok(b, refs, sel),
        spec_reconcile_block(b, refs, sel).name == b.name,
        spec_reconcile_block(b, refs, sel).data is Scripts,
        spec_reconcile_block(b, refs, sel).data->Scripts_0.len() == b.data->Scripts_0.len(),
        forall|i: int|
            0 <= i < b.data->Scripts_0.len()
                ==> (#[trigger] spec_reconcile_block(b, refs, sel).data->Scripts_0[i]) == (ScriptV {
                speaker: None,
                index: b.data->Scripts_0[i].index,
                text: b.data->Scripts_0[i].text,
            }),
{
}

/// A block that is not a story dialogue block comes out of reconciliation
/// exactly as it went in.
pub proof fn lemma_reconcile_preserves_others(
    b: BlockV,
    refs: Seq<(Seq<char>, Seq<ReferenceScriptV>)>,
    sel: Seq<Seq<char>>,
)
    requires
        !(spec_is_story_block(b.name) && b.data is Scripts),
    ensures
        spec_block_ok(b, refs, sel),
        spec_reconcile_block(b, refs, sel) == b,
{
}

/// Whether the exclusion list contains the given message.
fn contains_string(sel: &Vec<String>, m: &String) -> (r: bool)
    ensures
        r == view_strings(sel@).contains(m@),
{
    let mut j: usize = 0;
    while j < sel.len()
        invariant
            0 <= j <= sel@.len(),
            forall|t: int| 0 <= t < j ==> view_strings(sel@)[t] != m@,
        decreases sel@.len() - j,
    {
        if string_eq(&sel[j], m) {
            proof {
                assert(view_strings(sel@)[j as int] == m@);
            }
            return true;
        }
        j += 1;
    }
    proof {
        assert_by_contradiction!(!view_strings(sel@).contains(m@), {
            let w = choose|w: int| 0 <= w < view_strings(sel@).len() && view_strings(sel@)[w] == m@;
            assert(view_strings(sel@)[w] != m@);
        });
    }
    false
}

/// A copy of one transcript entry.
fn clone_ref_script(r: &ReferenceScript) -> (c: ReferenceScript)
    ensures
        c@ == r@,
{
    ReferenceScript {
        name: match &r.name {
            None => None,
            Some(n) => Some(n.clone()),
        },
        message: r.message.clone(),
    }
}

/// Drops every transcript entry whose message is in the exclusion list.
fn filter_refs(reference: &Vec<ReferenceScript>, sel: &Vec<String>) -> (r: Vec<ReferenceScript>)
    ensures
        view_ref_scripts(r@) == spec_filter_refs(view_ref_scripts(reference@), view_strings(sel@)),
{
    let ghost rv = view_ref_scripts(reference@);
    let ghost selv = view_strings(sel@);
    let mut out: Vec<ReferenceScript> = Vec::new();
    let mut i: usize = 0;
    while i < reference.len()
        invariant
            0 <= i <= reference@.len(),
            rv == view_ref_scripts(reference@),
            selv == view_strings(sel@),
            forall|j: int| 0 <= j < reference@.len() ==> rv[j] == #[trigger] reference@[j]@,
            view_ref_scripts(out@) =~= spec_filter_refs(rv.take(i as int), selv),
        decreases reference@.len() - i,
    {
        proof {
            assert(rv.take(i + 1).drop_last() =~= rv.take(i as int));
            assert(rv.take(i + 1).last() == rv[i as int]);
        }
        if !contains_string(sel, &reference[i].message) {
            out.push(clone_ref_script(&reference[i]));
        }
        i += 1;
        proof {
            assert(view_ref_scripts(out@) =~= spec_filter_refs(rv.take(i as int), selv));
        }
    }
    proof {
        assert(rv.take(reference@.len() as int) =~= rv);
    }
    out
}

/// The transcript loaded for the given block name, if the caller's table has
/// one.
fn lookup_reference<'a>(
    references: &'a Vec<(String, Vec<ReferenceScript>)>,
    name: &String,
) -> (r: Option<&'a Vec<ReferenceScript>>)
    ensures
        match r {
            Some(v) => spec_ref_lookup(view_refs(references@), name@) == Some(
                view_ref_scripts(v@),
            ),
            None => spec_ref_lookup(view_refs(references@), name@) is None,
        },
{
    let ghost refsv = view_refs(references@);
    let mut i: usize = 0;
    while i < references.len()
        invariant
            0 <= i <= references@.len(),
            refsv == view_refs(references@),
            forall|j: int|
                0 <= j < references@.len() ==> refsv[j] == (
                #[trigger] references@[j].0@,
                view_ref_scripts(references@[j].1@),
                ),
            forall|t: int| 0 <= t < i ==> refsv[t].0 != name@,
        decreases references@.len() - i,
    {
        if string_eq(&references[i].0, name) {
            proof {
                lemma_ref_lookup_hit(refsv, name@, i as int);
            }
            return Some(&references[i].1);
        }
        i += 1;
    }
    proof {
        lemma_ref_lookup_miss(refsv, name@);
    }
    None
}

/// The dialogue lines with speakers assigned positionally from the
/// transcript, or all unset when none is given.
fn assign_speakers(scripts: &Vec<Script>, reference: Option<&Vec<ReferenceScript>>) -> (r: Vec<
    Script,
>)
    requires
        reference matches Some(f) ==> f@.len() == scripts@.len(),
    ensures
        crate::block::view_scripts(r@) == spec_set_speakers(
            crate::block::view_scripts(scripts@),
            spec_opt_refs(reference),
        ),
{
    let ghost sv = crate::block::view_scripts(scripts@);
    let ghost fv = spec_opt_refs(reference);
    let mut out: Vec<Script> = Vec::new();
    let mut i: usize = 0;
    while i < scripts.len()
        invariant
            0 <= i <= scripts@.len(),
            sv == crate::block::view_scripts(scripts@),
            fv == spec_opt_refs(reference),
            fv matches Some(f) ==> f.len() == sv.len(),
            forall|j: int| 0 <= j < scripts@.len() ==> sv[j] == #[trigger] scripts@[j]@,
            fv matches Some(f) ==> reference matches Some(fr) && (forall|j: int|
                0 <= j < fr@.len() ==> f[j] == #[trigger] fr@[j]@),
            out@.len() == i,
            crate::block::view_scripts(out@) =~= spec_set_speakers(sv, fv).take(i as int),
        decreases scripts@.len() - i,
    {
        let speaker: Option<Speaker> = match reference {
            None => None,
            Some(f) => Some(
                match &f[i].name {
                    None => Speaker::NoName,
                    Some(n) => Speaker::Named(n.clone()),
                },
            ),
        };
        let sc = &scripts[i];
        out.push(Script { speaker, index: sc.index, text: sc.text.clone() });
        i += 1;
        proof {
            assert(crate::block::view_scripts(out@) =~= spec_set_speakers(sv, fv).take(i as int));
        }
    }
    proof {
        assert(spec_set_speakers(sv, fv).take(sv.len() as int) =~= spec_set_speakers(sv, fv));
    }
    out
}

/// View of an optional borrowed transcript.
pub open spec fn spec_opt_refs(o: Option<&Vec<ReferenceScript>>) -> Option<Seq<ReferenceScriptV>> {
    match o {
        None => None,
        Some(f) => Some(view_ref_scripts(f@)),
    }
}

/// Reconciles one block against the caller's reference table, exactly as
/// [`spec_reconcile_block`] describes; fails exactly when the block misses
/// the length check of [`spec_block_ok`].
pub fn reconcile_block(
    b: Block,
    references: &Vec<(String, Vec<ReferenceScript>)>,
    sel: &Vec<String>,
) -> (r: Result<Block, ReconcileError>)
    ensures
        match r {
            Ok(nb) => spec_block_ok(b@, view_refs(references@), view_strings(sel@)) && nb@
                == spec_reconcile_block(b@, view_refs(references@), view_strings(sel@)),
            Err(e) => e == ReconcileError::LengthMismatch && !spec_block_ok(
                b@,
                view_refs(references@),
                view_strings(sel@),
            ),
        },
{
    if !is_story_block(b.name.as_str()) {
        return Ok(b);
    }
    let Block { name, id, data } = b;
    match data {
        Data::Scripts(scripts) => {
            match lookup_reference(references, &name) {
                None => {
                    let assigned = assign_speakers(&scripts, None);
                    Ok(Block { name, id, data: Data::Scripts(assigned) })
                },
                Some(rv) => {
                    let filtered = filter_refs(rv, sel);
                    if filtered.len() != scripts.len() {
                        return Err(ReconcileError::LengthMismatch);
                    }
                    let assigned = assign_speakers(&scripts, Some(&filtered));
                    Ok(Block { name, id, data: Data::Scripts(assigned) })
                },
            }
        },
        other => Ok(Block { name, id, data: other }),
    }
}

/// The names of the blocks that want a reference transcript: story dialogue
/// blocks, in order.
pub open spec fn spec_reference_targets(blocks: Seq<BlockV>) -> Seq<Seq<char>>
    decreases blocks.len(),
{
    if blocks.len() == 0 {
        Seq::empty()
    } else {
        let rest = spec_reference_targets(blocks.drop_last());
        if spec_is_story_block(blocks.last().name) && blocks.last().data is Scripts {
            rest.push(blocks.last().name)
        } else {
            rest
        }
    }
}

/// Lists the name of every story dialogue block, in order: the blocks whose
/// reference transcripts reconciliation will ask for.
pub fn reference_targets(blocks: &Vec<Block>) -> (r: Vec<String>)
    ensures
        view_strings(r@) == spec_reference_targets(view_blocks(blocks@)),
{
    let ghost bv = view_blocks(blocks@);
    let mut out: Vec<String> = Vec::new();
    let mut i: usize = 0;
    while i < blocks.len()
        invariant
            0 <= i <= blocks@.len(),
            bv == view_blocks(blocks@),
            forall|j: int| 0 <= j < blocks@.len() ==> bv[j] == #[trigger] blocks@[j]@,
            view_strings(out@) =~= spec_reference_targets(bv.take(i as int)),
        decreases blocks@.len() - i,
    {
        proof {
            assert(bv.take(i + 1).drop_last() =~= bv.take(i as int));
            assert(bv.take(i + 1).last() == bv[i as int]);
        }
        let block = &blocks[i];
        let wants = match &block.data {
            Data::Scripts(_) => is_story_block(block.name.as_str()),
            _ => false,
        };
        if wants {
            out.push(block.name.clone());
        }
        i += 1;
        proof {
            assert(view_strings(out@) =~= spec_reference_targets(bv.take(i as int)));
        }
    }
    proof {
        assert(bv.take(bv.len() as int) =~= bv);
    }
    out
}

/// The outcome of reconciliation: the reconciled blocks, and whether the
/// selection block was present at all.
#[derive(Debug)]
pub struct ReconcileOutcome {
    pub blocks: Vec<Block>,
    pub selection_found: bool,
}

/// Reconciles every block against the caller's reference table, exactly as
/// [`spec_merge_speakers`] describes; reports whether the selection block
/// was found, so that its absence can be logged.
pub fn merge_speakers(
    blocks: Vec<Block>,
    references: &Vec<(String, Vec<ReferenceScript>)>,
) -> (r: Result<ReconcileOutcome, ReconcileError>)
    ensures
        match r {
            Ok(out) => spec_merge_speakers(view_blocks(blocks@), view_refs(references@)) == Ok::<
                _,
                ReconcileError,
            >(view_blocks(out.blocks@)) && (out.selection_found <==> spec_find_named(
                view_blocks(blocks@),
                spec_selection_block_name(),
            ) is Some),
            Err(e) => spec_merge_speakers(view_blocks(blocks@), view_refs(references@)) == Err::<
                Seq<BlockV>,
                _,
            >(e),
        },
{
    let ghost origv = view_blocks(blocks@);
    let ghost refsv = view_refs(references@);
    // Locate the selection block.
    let mut i: usize = 0;
    let mut found = false;
    while i < blocks.len() && !found
        invariant
            0 <= i <= blocks@.len(),
            origv == view_blocks(blocks@),
            forall|j: int| 0 <= j < blocks@.len() ==> origv[j] == #[trigger] blocks@[j]@,
            forall|t: int| 0 <= t < i ==> origv[t].name != spec_selection_block_name(),
            found ==> i < blocks@.len() && origv[i as int].name == spec_selection_block_name(),
        decreases blocks@.len() - i, (if found { 0int } else { 1int }),
    {
        if string_eq_str(&blocks[i].name, "[selection]") {
            found = true;
        } else {
            i += 1;
        }
    }
    if !found {
        proof {
            lemma_find_named_miss(origv, spec_selection_block_name());
        }
        return Ok(ReconcileOutcome { blocks, selection_found: false });
    }
    proof {
        lemma_find_named_hit(origv, spec_selection_block_name(), i as int);
    }
    // Read its payload as the exclusion list.
    let sel: Vec<String> = match blocks[i].data.as_list() {
        None => {
            return Err(ReconcileError::SelectionNotList);
        },
        Some(l) => {
            let mut sel: Vec<String> = Vec::new();
            let mut j: usize = 0;
            while j < l.len()
                invariant
                    0 <= j <= l@.len(),
                    sel@.len() == j,
                    forall|t: int| 0 <= t < j ==> sel@[t]@ == #[trigger] l@[t]@,
                decreases l@.len() - j,
            {
                sel.push(l[j].clone());
                j += 1;
            }
            proof {
                assert(view_strings(sel@) =~= view_strings(l@));
            }
            sel
        },
    };
    let ghost selv = origv[i as int].data->List_0;
    proof {
        assert(view_strings(sel@) == selv);
    }
    // Reconcile every block in order.
    let mut rest = blocks;
    let mut out: Vec<Block> = Vec::new();
    let ghost n = origv.len();
    while rest.len() > 0
        invariant
            origv == view_blocks(blocks@),
            origv.len() == n,
            out@.len() + rest@.len() == n,
            refsv == view_refs(references@),
            view_strings(sel@) == selv,
            spec_find_named(origv, spec_selection_block_name()) matches Some(sb) && sb.data is List
                && sb.data->List_0 == selv,
            forall|j: int|
                0 <= j < rest@.len() ==> origv[out@.len() + j] == #[trigger] rest@[j]@,
            forall|t: int|
                0 <= t < out@.len() ==> spec_block_ok(#[trigger] origv[t], refsv, selv),
            view_blocks(out@) =~= Seq::new(
                out@.len(),
                |t: int| spec_reconcile_block(origv[t], refsv, selv),
            ),
        decreases rest@.len(),
    {
        let ghost done = out@.len() as int;
        let ghost pre = rest@;
        let b = rest.remove(0);
        proof {
            assert(b@ == origv[done]);
            assert forall|j: int| 0 <= j < rest@.len() implies origv[done + 1 + j]
                == #[trigger] rest@[j]@ by {
                assert(rest@[j] == pre[j + 1]);
            }
        }
        match reconcile_block(b, references, &sel) {
            Ok(nb) => {
                let ghost outpre = out@;
                out.push(nb);
                proof {
                    assert forall|t: int| 0 <= t < out@.len() implies #[trigger] view_blocks(
                        out@,
                    )[t] == spec_reconcile_block(origv[t], refsv, selv) by {
                        if t < outpre.len() {
                            assert(view_blocks(outpre)[t] == outpre[t]@);
                        } else {
                            assert(out@[t] == nb);
                        }
                    }
                    assert(view_blocks(out@) =~= Seq::new(
                        out@.len(),
                        |t: int| spec_reconcile_block(origv[t], refsv, selv),
                    ));
                }
            },
            Err(e) => {
                proof {
                    assert(!spec_block_ok(origv[done], refsv, selv));
                }
                return Err(e);
            },
        }
    }
    proof {
        assert(view_blocks(out@) =~= Seq::new(
            n,
            |t: int| spec_reconcile_block(origv[t], refsv, selv),
        ));
    }
    Ok(ReconcileOutcome { blocks: out, selection_found: true })
}

} // verus!
