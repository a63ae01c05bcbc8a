//! Name translation: rewrites every named speaker identity through the
//! canonical-name mapping block, leaving anonymous and unset identities
//! untouched, and reports each name the mapping lacks exactly once.

use crate::block::{
    spec_map_block_name, view_blocks, view_pairs, view_scripts, view_strings, Block, BlockV, Data,
    DataV, Script, ScriptV, Speaker, SpeakerV,
};
use crate::text::{string_eq, string_eq_str};
use crate::reconcile::{lemma_find_named_hit, lemma_find_named_miss, spec_find_named};
use vstd::prelude::*;

verus! {

/// Why translation aborted the run.
#[derive(Clone, Copy, Debug, PartialEq, Eq, Structural)]
pub enum TranslateError {
    /// A block carries the reserved mapping name but no mapping payload.
    MappingNotMap,
}

/// The value of the latest pair carrying the given key, if any: a later pair
/// overrides an earlier one with the same key.
pub open spec fn spec_map_get(m: Seq<(Seq<char>, Seq<char>)>, k: Seq<char>) -> Option<Seq<char>>
    decreases m.len(),
{
    if m.len() == 0 {
        None
    } else if m.last().0 == k {
        Some(m.last().1)
    } else {
        spec_map_get(m.drop_last(), k)
    }
}

proof fn lemma_map_get_hit(m: Seq<(Seq<char>, Seq<char>)>, k: Seq<char>, j: int)
    requires
        0 <= j < m.len(),
        m[j].0 == k,
        forall|t: int| j < t < m.len() ==> m[t].0 != k,
    ensures
        spec_map_get(m, k) == Some(m[j].1),
    decreases m.len(),
{
    if j < m.len() - 1 {
        lemma_map_get_hit(m.drop_last(), k, j);
    }
}

proof fn lemma_map_get_miss(m: Seq<(Seq<char>, Seq<char>)>, k: Seq<char>)
    requires
        forall|t: int| 0 <= t < m.len() ==> m[t].0 != k,
    ensures
        spec_map_get(m, k) is None,
    decreases m.len(),
{
    if m.len() > 0 {
        lemma_map_get_miss(m.drop_last(), k);
    }
}

/// One speaker identity after translation: a named identity found in the
/// mapping becomes the mapped name; everything else is unchanged.
pub open spec fn spec_translate_speaker(
    sp: Option<SpeakerV>,
    m: Seq<(Seq<char>, Seq<char>)>,
) -> Option<SpeakerV> {
    match sp {
        Some(SpeakerV::Named(v)) => match spec_map_get(m, v) {
            Some(t) => Some(SpeakerV::Named(t)),
            None => sp,
        },
        _ => sp,
    }
}

/// All dialogue lines of a block after translation; index and text are
/// untouched.
pub open spec fn spec_translate_scripts(scripts: Seq<ScriptV>, m: Seq<(Seq<char>, Seq<char>)>) -> Seq<
    ScriptV,
> {
    Seq::new(
        scripts.len(),
        |i: int|
            ScriptV {
                speaker: spec_translate_speaker(scripts[i].speaker, m),
                index: scripts[i].index,
                text: scripts[i].text,
            },
    )
}

/// One block after translation: only dialogue payloads change.
pub open spec fn spec_translate_block(b: BlockV, m: Seq<(Seq<char>, Seq<char>)>) -> BlockV {
    if b.data is Scripts {
        BlockV { name: b.name, id: b.id, data: DataV::Scripts(
            spec_translate_scripts(b.data->Scripts_0, m),
        ) }
    } else {
        b
    }
}

/// The whole block sequence after translation.
pub open spec fn spec_translate_blocks(blocks: Seq<BlockV>, m: Seq<(Seq<char>, Seq<char>)>) -> Seq<
    BlockV,
> {
    Seq::new(blocks.len(), |i: int| spec_translate_block(blocks[i], m))
}

/// The dialogue line at (`bi`, `sj`) carries the named speaker `v` and the
/// mapping lacks `v`.
pub open spec fn spec_untranslated_at(
    blocks: Seq<BlockV>,
    m: Seq<(Seq<char>, Seq<char>)>,
    bi: int,
    sj: int,
    v: Seq<char>,
) -> bool {
    &&& 0 <= bi < blocks.len()
    &&& blocks[bi].data is Scripts
    &&& 0 <= sj < blocks[bi].data->Scripts_0.len()
    &&& blocks[bi].data->Scripts_0[sj].speaker == Some(SpeakerV::Named(v))
    &&& spec_map_get(m, v) is None
}

/// Every named speaker the mapping lacks, anywhere in the block sequence.
pub open spec fn spec_untranslated(blocks: Seq<BlockV>, m: Seq<(Seq<char>, Seq<char>)>) -> Set<
    Seq<char>,
> {
    Set::new(|v: Seq<char>| exists|bi: int, sj: int| spec_untranslated_at(blocks, m, bi, sj, v))
}

/// The untranslated names found strictly before the line at (`bi`, `sj`).
pub open spec fn spec_untranslated_before(
    blocks: Seq<BlockV>,
    m: Seq<(Seq<char>, Seq<char>)>,
    bi: int,
    sj: int,
) -> Set<Seq<char>> {
    Set::new(
        |v: Seq<char>|
            exists|i: int, j: int|
                (i < bi || (i == bi && j < sj)) && spec_untranslated_at(blocks, m, i, j, v),
    )
}

/// Pushing a value onto a string sequence adds exactly that value to what it
/// contains.
proof fn lemma_push_contains(s: Seq<Seq<char>>, v: Seq<char>, w: Seq<char>)
    ensures
        s.push(v).contains(w) <==> (s.contains(w) || w == v),
{
    if s.contains(w) {
        let j = choose|j: int| 0 <= j < s.len() && s[j] == w;
        assert(s.push(v)[j] == w);
    }
    if w == v {
        assert(s.push(v)[s.len() as int] == w);
    }
    if s.push(v).contains(w) {
        let j = choose|j: int| 0 <= j < s.push(v).len() && s.push(v)[j] == w;
        if j < s.len() {
            assert(s[j] == w);
        }
    }
}

proof fn lemma_map_get_found(m: Seq<(Seq<char>, Seq<char>)>, k: Seq<char>)
    requires
        spec_map_get(m, k) is Some,
    ensures
        exists|j: int|
            0 <= j < m.len() && #[trigger] m[j].0 == k && Some(m[j].1) == spec_map_get(m, k),
    decreases m.len(),
{
    if m.len() > 0 && m.last().0 != k {
        lemma_map_get_found(m.drop_last(), k);
        let j = choose|j: int|
            0 <= j < m.drop_last().len() && #[trigger] m.drop_last()[j].0 == k && Some(
                m.drop_last()[j].1,
            ) == spec_map_get(m.drop_last(), k);
        assert(m[j].0 == k);
    }
}

/// Translating a speaker identity a second time through the same mapping
/// changes nothing, whenever no mapping key occurs among the mapping values.
pub proof fn lemma_translate_speaker_idempotent(
    sp: Option<SpeakerV>,
    m: Seq<(Seq<char>, Seq<char>)>,
)
    requires
        forall|i: int, j: int|
            #![trigger m[i].0, m[j].1]
            0 <= i < m.len() && 0 <= j < m.len() ==> m[i].0 != m[j].1,
    ensures
        spec_translate_speaker(spec_translate_speaker(sp, m), m) == spec_translate_speaker(sp, m),
{
    match sp {
        Some(SpeakerV::Named(v)) => {
            match spec_map_get(m, v) {
                Some(t) => {
                    lemma_map_get_found(m, v);
                    let j = choose|j: int|
                        0 <= j < m.len() && #[trigger] m[j].0 == v && Some(m[j].1) == spec_map_get(
                            m,
                            v,
                        );
                    assert(forall|i: int| 0 <= i < m.len() ==> #[trigger] m[i].0 != t);
                    lemma_map_get_miss(m, t);
                },
                None => {},
            }
        },
        _ => {},
    }
}

/// A block without a dialogue payload comes out of translation exactly as it
/// went in.
pub proof fn lemma_translate_preserves_others(b: BlockV, m: Seq<(Seq<char>, Seq<char>)>)
    requires
        !(b.data is Scripts),
    ensures
        spec_translate_block(b, m) == b,
{
}

/// Applying the name translation twice gives what applying it once gives,
/// whenever no mapping key occurs among the mapping values.
pub proof fn lemma_translate_idempotent(blocks: Seq<BlockV>, m: Seq<(Seq<char>, Seq<char>)>)
    requires
        forall|i: int, j: int|
            #![trigger m[i].0, m[j].1]
            0 <= i < m.len() && 0 <= j < m.len() ==> m[i].0 != m[j].1,
    ensures
        spec_translate_blocks(spec_translate_blocks(blocks, m), m) == spec_translate_blocks(
            blocks,
            m,
        ),
{
    let once = spec_translate_blocks(blocks, m);
    assert forall|i: int| 0 <= i < once.len() implies #[trigger] spec_translate_blocks(once, m)[i]
        == once[i] by {
        let b = blocks[i];
        let tb = spec_translate_block(b, m);
        if tb.data is Scripts {
            let s1 = tb.data->Scripts_0;
            assert forall|j: int| 0 <= j < s1.len() implies #[trigger] spec_translate_scripts(
                s1,
                m,
            )[j] == s1[j] by {
                lemma_translate_speaker_idempotent(b.data->Scripts_0[j].speaker, m);
            }
            assert(spec_translate_scripts(s1, m) =~= s1);
        }
    }
    assert(spec_translate_blocks(once, m) =~= once);
}

/// The mapped value for the given key, if the mapping carries one.
fn map_get<'a>(m: &'a Vec<(String, String)>, k: &String) -> (r: Option<&'a String>)
    ensures
        match r {
            Some(v) => spec_map_get(view_pairs(m@), k@) == Some(v@),
            None => spec_map_get(view_pairs(m@), k@) is None,
        },
{
    let ghost mv = view_pairs(m@);
    let mut i: usize = m.len();
    while i > 0
        invariant
            0 <= i <= m@.len(),
            mv == view_pairs(m@),
            forall|j: int| 0 <= j < m@.len() ==> mv[j] == (#[trigger] m@[j].0@, m@[j].1@),
            forall|t: int| i <= t < m@.len() ==> mv[t].0 != k@,
        decreases i,
    {
        i -= 1;
        if string_eq(&m[i].0, k) {
            proof {
                lemma_map_get_hit(mv, k@, i as int);
            }
            return Some(&m[i].1);
        }
    }
    proof {
        lemma_map_get_miss(mv, k@);
    }
    None
}

/// Whether the list of names already carries the given one.
fn contains_name(names: &Vec<String>, v: &String) -> (r: bool)
    ensures
        r == view_strings(names@).contains(v@),
{
    let mut j: usize = 0;
    while j < names.len()
        invariant
            0 <= j <= names@.len(),
            forall|t: int| 0 <= t < j ==> view_strings(names@)[t] != v@,
        decreases names@.len() - j,
    {
        if string_eq(&names[j], v) {
            proof {
                assert(view_strings(names@)[j as int] == v@);
            }
            return true;
        }
        j += 1;
    }
    proof {
        vstd::assert_by_contradiction!(!view_strings(names@).contains(v@), {
            let w = choose|w: int|
                0 <= w < view_strings(names@).len() && view_strings(names@)[w] == v@;
            assert(view_strings(names@)[w] != v@);
        });
    }
    false
}

/// One block with every named speaker rewritten through the mapping, exactly
/// as [`spec_translate_block`] describes.
fn translate_block(b: Block, mp: &Vec<(String, String)>) -> (nb: Block)
    ensures
        nb@ == spec_translate_block(b@, view_pairs(mp@)),
{
    let ghost mv = view_pairs(mp@);
    let Block { name, id, data } = b;
    match data {
        Data::Scripts(scripts) => {
            let ghost sv = view_scripts(scripts@);
            let mut out: Vec<Script> = Vec::new();
            let mut i: usize = 0;
            while i < scripts.len()
                invariant
                    0 <= i <= scripts@.len(),
                    mv == view_pairs(mp@),
                    sv == view_scripts(scripts@),
                    forall|j: int| 0 <= j < scripts@.len() ==> sv[j] == #[trigger] scripts@[j]@,
                    out@.len() == i,
                    view_scripts(out@) =~= spec_translate_scripts(sv, mv).take(i as int),
                decreases scripts@.len() - i,
            {
                let sc = &scripts[i];
                let speaker: Option<Speaker> = match &sc.speaker {
                    None => None,
                    Some(Speaker::NoName) => Some(Speaker::NoName),
                    Some(Speaker::Named(v)) => match map_get(mp, v) {
                        Some(t) => Some(Speaker::Named(t.clone())),
                        None => Some(Speaker::Named(v.clone())),
                    },
                };
                out.push(Script { speaker, index: sc.index, text: sc.text.clone() });
                i += 1;
                proof {
                    assert(view_scripts(out@) =~= spec_translate_scripts(sv, mv).take(i as int));
                }
            }
            proof {
                assert(spec_translate_scripts(sv, mv).take(sv.len() as int)
                    =~= spec_translate_scripts(sv, mv));
            }
            Block { name, id, data: Data::Scripts(out) }
        },
        other => Block { name, id, data: other },
    }
}

/// The outcome of translation: the rewritten blocks, whether the mapping
/// block was present at all, and each name the mapping lacked, once.
#[derive(Debug)]
pub struct TranslateOutcome {
    pub blocks: Vec<Block>,
    pub mapping_found: bool,
    pub untranslated: Vec<String>,
}

/// Rewrites every named speaker through the mapping block: without one, all
/// blocks are unchanged; with one whose payload is not a mapping the run
/// aborts; otherwise the blocks become [`spec_translate_blocks`] and the
/// untranslated names are exactly [`spec_untranslated`], each reported once.
pub fn translate_speakers(blocks: Vec<Block>) -> (r: Result<TranslateOutcome, TranslateError>)
    ensures
        match r {
            Ok(out) => match spec_find_named(view_blocks(blocks@), spec_map_block_name()) {
                None => view_blocks(out.blocks@) == view_blocks(blocks@) && !out.mapping_found
                    && out.untranslated@.len() == 0,
                Some(mb) => mb.data is TextMap && out.mapping_found && view_blocks(out.blocks@)
                    == spec_translate_blocks(view_blocks(blocks@), mb.data->TextMap_0) && (forall|
                    v: Seq<char>,
                |
                    view_strings(out.untranslated@).contains(v) <==> spec_untranslated(
                        view_blocks(blocks@),
                        mb.data->TextMap_0,
                    ).contains(v)) && view_strings(out.untranslated@).no_duplicates(),
            },
            Err(e) => e == TranslateError::MappingNotMap && (spec_find_named(
                view_blocks(blocks@),
                spec_map_block_name(),
            ) matches Some(mb) && !(mb.data is TextMap)),
        },
{
    let ghost origv = view_blocks(blocks@);
    // Locate the mapping block.
    let mut i: usize = 0;
    let mut found = false;
    while i < blocks.len() && !found
        invariant
            0 <= i <= blocks@.len(),
            origv == view_blocks(blocks@),
            forall|j: int| 0 <= j < blocks@.len() ==> origv[j] == #[trigger] blocks@[j]@,
            forall|t: int| 0 <= t < i ==> origv[t].name != spec_map_block_name(),
            found ==> i < blocks@.len() && origv[i as int].name == spec_map_block_name(),
        decreases blocks@.len() - i, (if found { 0int } else { 1int }),
    {
        if string_eq_str(&blocks[i].name, "[name2]") {
            found = true;
        } else {
            i += 1;
        }
    }
    if !found {
        proof {
            lemma_find_named_miss(origv, spec_map_block_name());
        }
        return Ok(
            TranslateOutcome { blocks, mapping_found: false, untranslated: Vec::new() },
        );
    }
    proof {
        lemma_find_named_hit(origv, spec_map_block_name(), i as int);
    }
    // Read its payload as the name mapping.
    let mp: Vec<(String, String)> = match blocks[i].data.as_map() {
        None => {
            return Err(TranslateError::MappingNotMap);
        },
        Some(m) => {
            let mut mp: Vec<(String, String)> = Vec::new();
            let mut j: usize = 0;
            while j < m.len()
                invariant
                    0 <= j <= m@.len(),
                    mp@.len() == j,
                    forall|t: int|
                        0 <= t < j ==> (#[trigger] mp@[t].0@, mp@[t].1@) == (m@[t].0@, m@[t].1@),
                decreases m@.len() - j,
            {
                mp.push((m[j].0.clone(), m[j].1.clone()));
                j += 1;
            }
            proof {
                assert(view_pairs(mp@) =~= view_pairs(m@));
            }
            mp
        },
    };
    let ghost mv = origv[i as int].data->TextMap_0;
    proof {
        assert(view_pairs(mp@) == mv);
    }
    // First pass: gather every named speaker the mapping lacks, once each.
    let mut untr: Vec<String> = Vec::new();
    let mut bi: usize = 0;
    while bi < blocks.len()
        invariant
            0 <= bi <= blocks@.len(),
            origv == view_blocks(blocks@),
            mv == view_pairs(mp@),
            forall|j: int| 0 <= j < blocks@.len() ==> origv[j] == #[trigger] blocks@[j]@,
            view_strings(untr@).no_duplicates(),
            forall|v: Seq<char>|
                #[trigger] view_strings(untr@).contains(v) <==> spec_untranslated_before(
                    origv,
                    mv,
                    bi as int,
                    0,
                ).contains(v),
        decreases blocks@.len() - bi,
    {
        let ghost snap = view_strings(untr@);
        match &blocks[bi].data {
            Data::Scripts(scripts) => {
                let ghost sv = view_scripts(scripts@);
                proof {
                    assert(origv[bi as int].data->Scripts_0 == sv);
                }
                let mut sj: usize = 0;
                while sj < scripts.len()
                    invariant
                        0 <= sj <= scripts@.len(),
                        origv == view_blocks(blocks@),
                        mv == view_pairs(mp@),
                        bi < blocks@.len(),
                        origv[bi as int].data is Scripts,
                        origv[bi as int].data->Scripts_0 == sv,
                        sv == view_scripts(scripts@),
                        forall|j: int| 0 <= j < scripts@.len() ==> sv[j] == #[trigger] scripts@[j]@,
                        view_strings(untr@).no_duplicates(),
                        forall|v: Seq<char>|
                            #[trigger] view_strings(untr@).contains(v)
                                <==> spec_untranslated_before(
                                origv,
                                mv,
                                bi as int,
                                sj as int,
                            ).contains(v),
                    decreases scripts@.len() - sj,
                {
                    let ghost pre = view_strings(untr@);
                    let sc = &scripts[sj];
                    let mut hit: Option<String> = None;
                    if let Some(Speaker::Named(v)) = &sc.speaker {
                        if map_get(&mp, v).is_none() {
                            hit = Some(v.clone());
                        }
                    }
                    match hit {
                        Some(v) => {
                            proof {
                                assert(spec_untranslated_at(origv, mv, bi as int, sj as int, v@));
                            }
                            if !contains_name(&untr, &v) {
                                untr.push(v);
                                proof {
                                    assert(view_strings(untr@) =~= pre.push(v@));
                                }
                            }
                            proof {
                                let ghost v_ = v@;
                                assert forall|w: Seq<char>|
                                    #[trigger] view_strings(untr@).contains(w)
                                        <==> spec_untranslated_before(
                                        origv,
                                        mv,
                                        bi as int,
                                        sj + 1,
                                    ).contains(w) by {
                                    lemma_push_contains(pre, v_, w);
                                    if spec_untranslated_before(
                                        origv,
                                        mv,
                                        bi as int,
                                        sj + 1,
                                    ).contains(w) {
                                        let (x, y): (int, int) = choose|x: int, y: int|
                                            (x < bi as int || (x == bi as int && y < sj + 1))
                                                && spec_untranslated_at(origv, mv, x, y, w);
                                        if x == bi as int && y == sj as int {
                                            assert(w == v_);
                                        } else {
                                            assert(spec_untranslated_before(
                                                origv,
                                                mv,
                                                bi as int,
                                                sj as int,
                                            ).contains(w));
                                        }
                                    }
                                    if pre.contains(w) || w == v_ {
                                        assert(spec_untranslated_before(
                                            origv,
                                            mv,
                                            bi as int,
                                            sj + 1,
                                        ).contains(w));
                                    }
                                }
                                assert(view_strings(untr@).no_duplicates()) by {
                                    if !pre.contains(v_) {
                                        assert(forall|t: int|
                                            0 <= t < pre.len() ==> #[trigger] pre[t] != v_);
                                    }
                                }
                            }
                        },
                        None => {
                            proof {
                                assert forall|w: Seq<char>|
                                    #[trigger] view_strings(untr@).contains(w)
                                        <==> spec_untranslated_before(
                                        origv,
                                        mv,
                                        bi as int,
                                        sj + 1,
                                    ).contains(w) by {
                                    if spec_untranslated_before(
                                        origv,
                                        mv,
                                        bi as int,
                                        sj + 1,
                                    ).contains(w) {
                                        let (x, y): (int, int) = choose|x: int, y: int|
                                            (x < bi as int || (x == bi as int && y < sj + 1))
                                                && spec_untranslated_at(origv, mv, x, y, w);
                                        if x == bi as int && y == sj as int {
                                            assert(!spec_untranslated_at(
                                                origv,
                                                mv,
                                                bi as int,
                                                sj as int,
                                                w,
                                            ));
                                        } else {
                                            assert(spec_untranslated_before(
                                                origv,
                                                mv,
                                                bi as int,
                                                sj as int,
                                            ).contains(w));
                                        }
                                    }
                                }
                            }
                        },
                    }
                    sj += 1;
                }
                proof {
                    assert forall|w: Seq<char>|
                        spec_untranslated_before(origv, mv, bi + 1, 0).contains(w)
                            <==> spec_untranslated_before(
                        origv,
                        mv,
                        bi as int,
                        sv.len() as int,
                    ).contains(w) by {
                        if spec_untranslated_before(origv, mv, bi + 1, 0).contains(w) {
                            let (x, y): (int, int) = choose|x: int, y: int|
                                (x < bi + 1 || (x == bi + 1 && y < 0)) && spec_untranslated_at(
                                    origv,
                                    mv,
                                    x,
                                    y,
                                    w,
                                );
                            assert(spec_untranslated_before(
                                origv,
                                mv,
                                bi as int,
                                sv.len() as int,
                            ).contains(w));
                        }
                        if spec_untranslated_before(
                            origv,
                            mv,
                            bi as int,
                            sv.len() as int,
                        ).contains(w) {
                            let (x, y): (int, int) = choose|x: int, y: int|
                                (x < bi as int || (x == bi as int && y < sv.len() as int))
                                    && spec_untranslated_at(origv, mv, x, y, w);
                            assert(spec_untranslated_before(origv, mv, bi + 1, 0).contains(w));
                        }
                    }
                }
            },
            _ => {
                proof {
                    assert forall|w: Seq<char>|
                        spec_untranslated_before(origv, mv, bi + 1, 0).contains(w)
                            <==> spec_untranslated_before(origv, mv, bi as int, 0).contains(
                        w,
                    ) by {
                        if spec_untranslated_before(origv, mv, bi + 1, 0).contains(w) {
                            let (x, y): (int, int) = choose|x: int, y: int|
                                (x < bi + 1 || (x == bi + 1 && y < 0)) && spec_untranslated_at(
                                    origv,
                                    mv,
                                    x,
                                    y,
                                    w,
                                );
                            if x == bi as int {
                                assert(!(origv[x].data is Scripts));
                            }
                            assert(spec_untranslated_before(origv, mv, bi as int, 0).contains(w));
                        }
                        if spec_untranslated_before(origv, mv, bi as int, 0).contains(w) {
                            let (x, y): (int, int) = choose|x: int, y: int|
                                (x < bi as int || (x == bi as int && y < 0))
                                    && spec_untranslated_at(origv, mv, x, y, w);
                            assert(spec_untranslated_before(origv, mv, bi + 1, 0).contains(w));
                        }
                    }
                }
            },
        }
        bi += 1;
    }
    proof {
        assert forall|w: Seq<char>|
            #[trigger] spec_untranslated(origv, mv).contains(w) <==> spec_untranslated_before(
                origv,
                mv,
                origv.len() as int,
                0,
            ).contains(w) by {
            if spec_untranslated(origv, mv).contains(w) {
                let (x, y): (int, int) = choose|x: int, y: int|
                    spec_untranslated_at(origv, mv, x, y, w);
                assert(spec_untranslated_before(origv, mv, origv.len() as int, 0).contains(w));
            }
            if spec_untranslated_before(origv, mv, origv.len() as int, 0).contains(w) {
                let (x, y): (int, int) = choose|x: int, y: int|
                    (x < origv.len() as int || (x == origv.len() as int && y < 0))
                        && spec_untranslated_at(origv, mv, x, y, w);
                assert(spec_untranslated(origv, mv).contains(w));
            }
        }
    }
    // Second pass: rewrite every named speaker through the mapping.
    let mut rest = blocks;
    let mut out: Vec<Block> = Vec::new();
    let ghost n = origv.len();
    while rest.len() > 0
        invariant
            origv == view_blocks(blocks@),
            origv.len() == n,
            out@.len() + rest@.len() == n,
            mv == view_pairs(mp@),
            forall|j: int| 0 <= j < rest@.len() ==> origv[out@.len() + j] == #[trigger] rest@[j]@,
            view_blocks(out@) =~= spec_translate_blocks(origv, mv).take(out@.len() as int),
        decreases rest@.len(),
    {
        let ghost done = out@.len() as int;
        let ghost pre = rest@;
        let b = rest.remove(0);
        proof {
            assert(b@ == origv[done]);
            assert forall|j: int| 0 <= j < rest@.len() implies origv[done + 1 + j]
                == #[trigger] rest@[j]@ by {
                assert(rest@[j] == pre[j + 1]);
            }
        }
        let nb = translate_block(b, &mp);
        let ghost outpre = out@;
        out.push(nb);
        proof {
            assert forall|t: int| 0 <= t < out@.len() implies #[trigger] view_blocks(out@)[t]
                == spec_translate_blocks(origv, mv)[t] by {
                if t < outpre.len() {
                    assert(view_blocks(outpre)[t] == outpre[t]@);
                } else {
                    assert(out@[t] == nb);
                }
            }
            assert(view_blocks(out@) =~= spec_translate_blocks(origv, mv).take(out@.len() as int));
        }
    }
    proof {
        assert(view_blocks(out@) =~= spec_translate_blocks(origv, mv));
    }
    Ok(TranslateOutcome { blocks: out, mapping_found: true, untranslated: untr })
}

} // verus!
