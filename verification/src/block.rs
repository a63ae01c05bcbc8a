//! The data model: untyped items, raw blocks, classified payloads, dialogue
//! lines and speaker identities, together with their mathematical views.

use vstd::prelude::*;

verus! {

/// An untyped item of a raw block: either a dialogue-line sequence index or
/// inline text.
#[derive(Debug)]
pub enum Item {
    Index(usize),
    Script(String),
}

/// View of an [`Item`].
#[verifier::ext_equal]
pub enum ItemV {
    Index(usize),
    Script(Seq<char>),
}

impl View for Item {
    type V = ItemV;

    open spec fn view(&self) -> ItemV {
        match self {
            Item::Index(i) => ItemV::Index(*i),
            Item::Script(s) => ItemV::Script(s@),
        }
    }
}

/// The content of an inline-text item, and nothing for a sequence index.
pub open spec fn spec_item_content(item: ItemV) -> Option<Seq<char>> {
    match item {
        ItemV::Index(_) => None,
        ItemV::Script(s) => Some(s),
    }
}

impl Item {
    /// Extracts the inline text of the item, if it has any.
    pub fn into_content(self) -> (r: Option<String>)
        ensures
            view_opt_string(r) == spec_item_content(self@),
    {
        match self {
            Item::Index(_) => None,
            Item::Script(content) => Some(content),
        }
    }
}

/// View of an `Option<String>` as an optional character sequence.
pub open spec fn view_opt_string(o: Option<String>) -> Option<Seq<char>> {
    match o {
        None => None,
        Some(s) => Some(s@),
    }
}

/// A block as assembled from the token stream, before classification.
#[derive(Debug)]
pub struct BlockUnmerged {
    pub name: String,
    pub id: u32,
    pub items: Vec<Item>,
}

/// View of a [`BlockUnmerged`].
#[verifier::ext_equal]
pub struct BlockUnmergedV {
    pub name: Seq<char>,
    pub id: u32,
    pub items: Seq<ItemV>,
}

impl View for BlockUnmerged {
    type V = BlockUnmergedV;

    open spec fn view(&self) -> BlockUnmergedV {
        BlockUnmergedV {
            name: self.name@,
            id: self.id,
            items: self.items@.map_values(|it: Item| it@),
        }
    }
}

/// View of a vector of raw blocks.
pub open spec fn view_blocks_unmerged(v: Seq<BlockUnmerged>) -> Seq<BlockUnmergedV> {
    v.map_values(|b: BlockUnmerged| b@)
}

/// A speaker identity: anonymous or named.
#[derive(Debug)]
pub enum Speaker {
    NoName,
    Named(String),
}

/// View of a [`Speaker`].
#[verifier::ext_equal]
pub enum SpeakerV {
    NoName,
    Named(Seq<char>),
}

impl View for Speaker {
    type V = SpeakerV;

    open spec fn view(&self) -> SpeakerV {
        match self {
            Speaker::NoName => SpeakerV::NoName,
            Speaker::Named(n) => SpeakerV::Named(n@),
        }
    }
}

/// One dialogue line: an optional speaker identity, the sequence index it was
/// assembled from, and its text.
#[derive(Debug)]
pub struct Script {
    pub speaker: Option<Speaker>,
    pub index: Option<usize>,
    pub text: String,
}

/// View of a [`Script`].
#[verifier::ext_equal]
pub struct ScriptV {
    pub speaker: Option<SpeakerV>,
    pub index: Option<usize>,
    pub text: Seq<char>,
}

impl View for Script {
    type V = ScriptV;

    open spec fn view(&self) -> ScriptV {
        ScriptV {
            speaker: match &self.speaker {
                None => None,
                Some(sp) => Some(sp@),
            },
            index: self.index,
            text: self.text@,
        }
    }
}

/// A classified payload: an ordered text list, a key-to-text mapping kept as
/// ordered pairs, or an ordered sequence of dialogue lines.
#[derive(Debug)]
pub enum Data {
    List(Vec<String>),
    TextMap(Vec<(String, String)>),
    Scripts(Vec<Script>),
}

/// View of a [`Data`] payload.
#[verifier::ext_equal]
pub enum DataV {
    List(Seq<Seq<char>>),
    TextMap(Seq<(Seq<char>, Seq<char>)>),
    Scripts(Seq<ScriptV>),
}

/// View of a vector of strings.
pub open spec fn view_strings(v: Seq<String>) -> Seq<Seq<char>> {
    v.map_values(|s: String| s@)
}

/// View of a vector of string pairs.
pub open spec fn view_pairs(v: Seq<(String, String)>) -> Seq<(Seq<char>, Seq<char>)> {
    v.map_values(|p: (String, String)| (p.0@, p.1@))
}

/// View of a vector of dialogue lines.
pub open spec fn view_scripts(v: Seq<Script>) -> Seq<ScriptV> {
    v.map_values(|s: Script| s@)
}

impl View for Data {
    type V = DataV;

    open spec fn view(&self) -> DataV {
        match self {
            Data::List(l) => DataV::List(view_strings(l@)),
            Data::TextMap(m) => DataV::TextMap(view_pairs(m@)),
            Data::Scripts(s) => DataV::Scripts(view_scripts(s@)),
        }
    }
}

impl Data {
    /// The ordered text list, when the payload is one.
    pub fn as_list(&self) -> (r: Option<&Vec<String>>)
        ensures
            r is Some <==> self@ is List,
            r matches Some(l) ==> view_strings(l@) == self@->List_0,
    {
        match self {
            Data::List(list) => Some(list),
            _ => None,
        }
    }

    /// The key-to-text mapping, when the payload is one.
    pub fn as_map(&self) -> (r: Option<&Vec<(String, String)>>)
        ensures
            r is Some <==> self@ is TextMap,
            r matches Some(m) ==> view_pairs(m@) == self@->TextMap_0,
    {
        match self {
            Data::TextMap(map) => Some(map),
            _ => None,
        }
    }

    /// Mutable access to the dialogue lines, when the payload is some.
    pub fn as_scripts_mut(&mut self) -> (r: Option<&mut Vec<Script>>)
        ensures
            r is Some <==> old(self)@ is Scripts,
            r matches Some(s) ==> view_scripts(s@) == old(self)@->Scripts_0 && *final(self)
                == Data::Scripts(*final(s)),
            r is None ==> *final(self) == *old(self),
    {
        match self {
            Data::Scripts(scripts) => Some(scripts),
            _ => None,
        }
    }
}

/// A classified block: a name, the numeric id read at assembly, and the
/// typed payload.
#[derive(Debug)]
pub struct Block {
    pub name: String,
    pub id: u32,
    pub data: Data,
}

/// View of a [`Block`].
#[verifier::ext_equal]
pub struct BlockV {
    pub name: Seq<char>,
    pub id: u32,
    pub data: DataV,
}

impl View for Block {
    type V = BlockV;

    open spec fn view(&self) -> BlockV {
        BlockV { name: self.name@, id: self.id, data: self.data@ }
    }
}

/// View of a vector of blocks.
pub open spec fn view_blocks(v: Seq<Block>) -> Seq<BlockV> {
    v.map_values(|b: Block| b@)
}

/// An entry of a reference transcript: an optional speaker name and the
/// message text it accompanies.
#[derive(Debug)]
pub struct ReferenceScript {
    pub name: Option<String>,
    pub message: String,
}

/// View of a [`ReferenceScript`].
#[verifier::ext_equal]
pub struct ReferenceScriptV {
    pub name: Option<Seq<char>>,
    pub message: Seq<char>,
}

impl View for ReferenceScript {
    type V = ReferenceScriptV;

    open spec fn view(&self) -> ReferenceScriptV {
        ReferenceScriptV {
            name: match &self.name {
                None => None,
                Some(n) => Some(n@),
            },
            message: self.message@,
        }
    }
}

/// View of a vector of reference-transcript entries.
pub open spec fn view_ref_scripts(v: Seq<ReferenceScript>) -> Seq<ReferenceScriptV> {
    v.map_values(|s: ReferenceScript| s@)
}

/// The reserved name of the block holding the canonical-name mapping.
pub open spec fn spec_map_block_name() -> Seq<char> {
    "[name2]"@
}

/// The reserved name of the block holding the exclusion list.
pub open spec fn spec_selection_block_name() -> Seq<char> {
    "[selection]"@
}

} // verus!
