//! The project's memory: what the assistant is to keep in mind.
use vstd::prelude::*;

use crate::text;

verus! {

#[derive(Debug, Clone, PartialEq, Eq)]
pub struct ProjectMemory {
    pub world_setting: String,
    pub writing_style: String,
    pub user_preferences: String,
    pub updated_at: String,
}

#[verifier::ext_equal]
pub struct MemoryView {
    pub world_setting: Seq<char>,
    pub writing_style: Seq<char>,
    pub user_preferences: Seq<char>,
    pub updated_at: Seq<char>,
}

impl View for ProjectMemory {
    type V = MemoryView;

    open spec fn view(&self) -> MemoryView {
        MemoryView {
            world_setting: self.world_setting@,
            writing_style: self.writing_style@,
            user_preferences: self.user_preferences@,
            updated_at: self.updated_at@,
        }
    }
}

/// Whether nothing is to be kept in mind, whenever that was written.
pub open spec fn memory_blank(m: MemoryView) -> bool {
    m.world_setting.len() == 0 && m.writing_style.len() == 0 && m.user_preferences.len() == 0
}

impl ProjectMemory {
    pub fn is_blank(&self) -> (r: bool)
        ensures
            r == memory_blank(self@),
    {
        self.world_setting.as_str().is_empty() && self.writing_style.as_str().is_empty()
            && self.user_preferences.as_str().is_empty()
    }

    /// Whether two memories are the same in every field.
    pub fn same(&self, other: &ProjectMemory) -> (r: bool)
        ensures
            r == (self@ == other@),
    {
        let r = text::same(self.world_setting.as_str(), other.world_setting.as_str()) && text::same(
            self.writing_style.as_str(),
            other.writing_style.as_str(),
        ) && text::same(self.user_preferences.as_str(), other.user_preferences.as_str())
            && text::same(self.updated_at.as_str(), other.updated_at.as_str());
        assert(r ==> self@ =~= other@);
        r
    }
}

/// A memory is blank where it says nothing of the world, the style or the user; when it was written
/// does not count. Two are the same where every field is.
pub proof fn memories_are_compared_field_by_field(a: ProjectMemory, b: ProjectMemory)
    ensures
        memory_blank(a@) <==> a.world_setting@ == Seq::<char>::empty() && a.writing_style@
            == Seq::<char>::empty() && a.user_preferences@ == Seq::<char>::empty(),
        a@ == b@ <==> a.world_setting@ == b.world_setting@ && a.writing_style@ == b.writing_style@
            && a.user_preferences@ == b.user_preferences@ && a.updated_at@ == b.updated_at@,
{
    if memory_blank(a@) {
        assert(a.world_setting@ =~= Seq::<char>::empty());
        assert(a.writing_style@ =~= Seq::<char>::empty());
        assert(a.user_preferences@ =~= Seq::<char>::empty());
    }
}

} // verus!
