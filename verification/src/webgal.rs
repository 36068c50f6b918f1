//! Scene scripts as lists of commands.
use vstd::prelude::*;

use crate::story_plan;
use crate::text;

verus! {

/// The commands that binding tells apart.
#[derive(Debug, Clone, Copy, PartialEq, Eq, Structural)]
pub enum CommandType {
    Comment,
    Intro,
    Dialogue,
    Narrator,
    ChangeBg,
    ChangeFigure,
    Bgm,
    PlayEffect,
    /// Any other command.
    Other,
}

/// One command of a scene. What binding does not read is kept in `flags`.
#[derive(Debug, PartialEq, Eq)]
pub struct WebGalNode {
    pub id: String,
    pub cmd_type: CommandType,
    pub content: String,
    pub asset: Option<String>,
    pub character: Option<String>,
    pub voice: Option<String>,
    pub figure_character: Option<String>,
    pub figure_emotion: Option<String>,
    pub flags: Vec<String>,
}

#[verifier::ext_equal]
pub struct NodeView {
    pub id: Seq<char>,
    pub cmd_type: CommandType,
    pub content: Seq<char>,
    pub asset: Option<Seq<char>>,
    pub character: Option<Seq<char>>,
    pub voice: Option<Seq<char>>,
    pub figure_character: Option<Seq<char>>,
    pub figure_emotion: Option<Seq<char>>,
    pub flags: Seq<Seq<char>>,
}

impl View for WebGalNode {
    type V = NodeView;

    open spec fn view(&self) -> NodeView {
        NodeView {
            id: self.id@,
            cmd_type: self.cmd_type,
            content: self.content@,
            asset: story_plan::opt_text(self.asset),
            character: story_plan::opt_text(self.character),
            voice: story_plan::opt_text(self.voice),
            figure_character: story_plan::opt_text(self.figure_character),
            figure_emotion: story_plan::opt_text(self.figure_emotion),
            flags: text::texts(self.flags@),
        }
    }
}

pub open spec fn node_views(v: Seq<WebGalNode>) -> Seq<NodeView> {
    v.map_values(|n: WebGalNode| n@)
}

impl Clone for WebGalNode {
    fn clone(&self) -> (r: WebGalNode)
        ensures
            r@ == self@,
    {
        WebGalNode {
            id: self.id.clone(),
            cmd_type: self.cmd_type,
            content: self.content.clone(),
            asset: story_plan::copy_opt(&self.asset),
            character: story_plan::copy_opt(&self.character),
            voice: story_plan::copy_opt(&self.voice),
            figure_character: story_plan::copy_opt(&self.figure_character),
            figure_emotion: story_plan::copy_opt(&self.figure_emotion),
            flags: text::copy_all(&self.flags),
        }
    }
}

/// A command with nothing but its content.
pub open spec fn bare_node(id: Seq<char>, cmd_type: CommandType, content: Seq<char>) -> NodeView {
    NodeView {
        id,
        cmd_type,
        content,
        asset: None,
        character: None,
        voice: None,
        figure_character: None,
        figure_emotion: None,
        flags: Seq::empty(),
    }
}

impl WebGalNode {
    pub fn new(id: String, cmd_type: CommandType, content: String) -> (r: WebGalNode)
        ensures
            r@ == bare_node(id@, cmd_type, content@),
    {
        let r = WebGalNode {
            id,
            cmd_type,
            content,
            asset: None,
            character: None,
            voice: None,
            figure_character: None,
            figure_emotion: None,
            flags: Vec::new(),
        };
        assert(r@.flags =~= Seq::<Seq<char>>::empty());
        r
    }
}

/// A new command has its id, kind and content and nothing else; two commands are seen alike only
/// where every field of theirs is.
pub proof fn commands_are_told_apart_by_their_fields(a: WebGalNode, b: WebGalNode, content: Seq<char>)
    ensures
        a@ == b@ <==> a.id@ == b.id@ && a.cmd_type == b.cmd_type && a.content@ == b.content@
            && story_plan::opt_text(a.asset) == story_plan::opt_text(b.asset)
            && story_plan::opt_text(a.character) == story_plan::opt_text(b.character)
            && story_plan::opt_text(a.voice) == story_plan::opt_text(b.voice)
            && story_plan::opt_text(a.figure_character) == story_plan::opt_text(b.figure_character)
            && story_plan::opt_text(a.figure_emotion) == story_plan::opt_text(b.figure_emotion)
            && text::texts(a.flags@) == text::texts(b.flags@),
        ({
            let n = bare_node(a.id@, a.cmd_type, content);
            n.id == a.id@ && n.cmd_type == a.cmd_type && n.content == content && n.asset is None
                && n.character is None && n.voice is None && n.figure_character is None
                && n.figure_emotion is None && n.flags == Seq::<Seq<char>>::empty()
        }),
{
}

} // verus!
