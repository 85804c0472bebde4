//! The group/command registry: the owned store of command groups, with the
//! lookups the scheduler uses to resolve a schedule's target.

use vstd::prelude::*;
use crate::errors::ApiError;
use crate::bridge::fresh_uuid;
use crate::model::{
    CommandGroup, CommandGroupView, CommandItem, CommandItemView, spec_group_views,
    spec_item_views,
};

verus! {

/// Whether some group carries the id.
pub open spec fn spec_contains_gid(s: Seq<CommandGroupView>, id: Seq<char>) -> bool {
    exists|i: int| 0 <= i < s.len() && s[i].id == id
}

/// The index of the group with the id.
pub open spec fn spec_index_of_gid(s: Seq<CommandGroupView>, id: Seq<char>) -> int {
    choose|i: int| 0 <= i < s.len() && s[i].id == id
}

/// Whether some command of the group carries the id.
pub open spec fn spec_contains_cid(s: Seq<CommandItemView>, id: Seq<char>) -> bool {
    exists|i: int| 0 <= i < s.len() && s[i].id == id
}

/// The index of the command with the id.
pub open spec fn spec_index_of_cid(s: Seq<CommandItemView>, id: Seq<char>) -> int {
    choose|i: int| 0 <= i < s.len() && s[i].id == id
}

/// No two groups share an id, and within each group no two commands share
/// an id.
pub open spec fn spec_groups_wf(s: Seq<CommandGroupView>) -> bool {
    &&& forall|i: int, j: int| 0 <= i < j < s.len() ==> s[i].id != s[j].id
    &&& forall|g: int, i: int, j: int|
        0 <= g < s.len() && 0 <= i < j < s[g].commands.len() ==> s[g].commands[i].id
            != s[g].commands[j].id
}

/// Whether some group in the vector carries the id.
fn out_has_gid(v: &Vec<CommandGroup>, id: &String) -> (r: bool)
    ensures
        r == spec_contains_gid(spec_group_views(v@), id@),
{
    let n = v.len();
    let mut i: usize = 0;
    while i < n
        invariant
            n == v@.len(),
            0 <= i <= n,
            forall|j: int| 0 <= j < i ==> spec_group_views(v@)[j].id != id@,
        decreases n - i,
    {
        if v[i].id == *id {
            proof {
                assert(spec_group_views(v@)[i as int].id == id@);
            }
            return true;
        }
        i = i + 1;
    }
    false
}

/// The commands with every repeated id dropped, keeping first occurrences.
fn sanitize_commands(commands: Vec<CommandItem>) -> (r: Vec<CommandItem>)
    ensures
        spec_item_views(r@) == spec_dedup_cids(spec_item_views(commands@)),
{
    let n = commands.len();
    let mut out: Vec<CommandItem> = Vec::new();
    proof {
        assert(spec_item_views(out@) =~= spec_dedup_cids(
            spec_item_views(commands@).take(0),
        ));
    }
    let mut i: usize = 0;
    while i < n
        invariant
            n == commands@.len(),
            0 <= i <= n,
            spec_item_views(out@) == spec_dedup_cids(spec_item_views(commands@).take(i as int)),
        decreases n - i,
    {
        let ghost allv = spec_item_views(commands@);
        if find_command(&out, &commands[i].id).is_none() {
            out.push(commands[i].clone());
        }
        proof {
            assert(allv.take(i + 1).drop_last() =~= allv.take(i as int));
            assert(allv.take(i + 1).last() == commands@[i as int]@);
            assert(spec_item_views(out@) =~= spec_dedup_cids(allv.take(i + 1)));
        }
        i = i + 1;
    }
    proof {
        assert(spec_item_views(commands@).take(n as int) =~= spec_item_views(commands@));
    }
    out
}

/// The index of the command with the id, if any.
fn find_command(v: &Vec<CommandItem>, id: &String) -> (r: Option<usize>)
    ensures
        match r {
            Option::Some(i) => 0 <= i < v@.len() && spec_item_views(v@)[i as int].id == id@,
            Option::None => !spec_contains_cid(spec_item_views(v@), id@),
        },
{
    let n = v.len();
    let mut i: usize = 0;
    while i < n
        invariant
            n == v@.len(),
            0 <= i <= n,
            forall|j: int| 0 <= j < i ==> spec_item_views(v@)[j].id != id@,
        decreases n - i,
    {
        if v[i].id == *id {
            proof {
                assert(spec_item_views(v@)[i as int].id == id@);
            }
            return Option::Some(i);
        }
        i = i + 1;
    }
    Option::None
}

/// The input sequence with every command whose id repeats an earlier one in
/// the same group dropped.
pub open spec fn spec_dedup_cids(s: Seq<CommandItemView>) -> Seq<CommandItemView>
    decreases s.len(),
{
    if s.len() == 0 {
        Seq::empty()
    } else {
        let prefix = spec_dedup_cids(s.drop_last());
        if spec_contains_cid(prefix, s.last().id) {
            prefix
        } else {
            prefix.push(s.last())
        }
    }
}

/// Dropping repeated command ids yields unique ids and keeps exactly the
/// ids of the input.
pub proof fn lemma_dedup_cids(s: Seq<CommandItemView>)
    ensures
        forall|i: int, j: int|
            0 <= i < j < spec_dedup_cids(s).len() ==> spec_dedup_cids(s)[i].id
                != spec_dedup_cids(s)[j].id,
        forall|id: Seq<char>|
            spec_contains_cid(spec_dedup_cids(s), id) == spec_contains_cid(s, id),
    decreases s.len(),
{
    if s.len() > 0 {
        lemma_dedup_cids(s.drop_last());
        let prefix = spec_dedup_cids(s.drop_last());
        let out = spec_dedup_cids(s);
        assert forall|id: Seq<char>|
            spec_contains_cid(out, id) == spec_contains_cid(s, id) by {
            if spec_contains_cid(s, id) {
                let i = spec_index_of_cid(s, id);
                if i < s.len() - 1 {
                    assert(s.drop_last()[i].id == id);
                    assert(spec_contains_cid(s.drop_last(), id));
                }
            }
            if spec_contains_cid(s.drop_last(), id) {
                let i = spec_index_of_cid(s.drop_last(), id);
                assert(s[i].id == id);
            }
            if spec_contains_cid(out, id) {
                let i = spec_index_of_cid(out, id);
                if i < prefix.len() {
                    assert(prefix[i].id == id);
                    assert(spec_contains_cid(prefix, id));
                } else {
                    assert(out[i] == s.last());
                    assert(s[s.len() - 1].id == id);
                }
            }
            if spec_contains_cid(prefix, id) {
                let i = spec_index_of_cid(prefix, id);
                assert(out[i].id == id);
            }
            if s.last().id == id && !spec_contains_cid(prefix, id) {
                assert(out[out.len() - 1].id == id);
            }
        }
        if !spec_contains_cid(prefix, s.last().id) {
            assert forall|i: int, j: int|
                0 <= i < j < out.len() implies out[i].id != out[j].id by {
                if j == out.len() - 1 {
                    if out[i].id == out[j].id {
                        assert(prefix[i].id == s.last().id);
                        assert(spec_contains_cid(prefix, s.last().id));
                    }
                }
            }
        }
    }
}

/// A group with its repeated command ids dropped.
pub open spec fn spec_sanitize_group(g: CommandGroupView) -> CommandGroupView {
    CommandGroupView { commands: spec_dedup_cids(g.commands), ..g }
}

/// The groups as hydrated from storage: each group's repeated command ids
/// dropped, and every group whose id repeats an earlier one dropped.
pub open spec fn spec_load_groups(s: Seq<CommandGroupView>) -> Seq<CommandGroupView>
    decreases s.len(),
{
    if s.len() == 0 {
        Seq::empty()
    } else {
        let prefix = spec_load_groups(s.drop_last());
        if spec_contains_gid(prefix, s.last().id) {
            prefix
        } else {
            prefix.push(spec_sanitize_group(s.last()))
        }
    }
}

/// Hydration yields a well-formed registry content.
pub proof fn lemma_load_groups(s: Seq<CommandGroupView>)
    ensures
        spec_groups_wf(spec_load_groups(s)),
    decreases s.len(),
{
    if s.len() > 0 {
        lemma_load_groups(s.drop_last());
        let prefix = spec_load_groups(s.drop_last());
        let out = spec_load_groups(s);
        if !spec_contains_gid(prefix, s.last().id) {
            lemma_dedup_cids(s.last().commands);
            assert forall|i: int, j: int|
                0 <= i < j < out.len() implies out[i].id != out[j].id by {
                if j == out.len() - 1 {
                    if out[i].id == out[j].id {
                        assert(prefix[i].id == s.last().id);
                        assert(spec_contains_gid(prefix, s.last().id));
                    }
                }
            }
            assert forall|g: int, i: int, j: int|
                0 <= g < out.len() && 0 <= i < j < out[g].commands.len()
                    implies out[g].commands[i].id != out[g].commands[j].id by {
                if g < out.len() - 1 {
                    assert(out[g] == prefix[g]);
                }
            }
        }
    }
}

/// Mathematical image of a `GroupRegistry`.
pub ghost struct GroupRegistryView {
    pub groups: Seq<CommandGroupView>,
}

/// The owned store of command groups.
pub struct GroupRegistry {
    groups: Vec<CommandGroup>,
}

impl View for GroupRegistry {
    type V = GroupRegistryView;

    closed spec fn view(&self) -> GroupRegistryView {
        GroupRegistryView { groups: spec_group_views(self.groups@) }
    }
}

impl GroupRegistry {
    /// Group ids unique, and command ids unique within each group.
    pub open spec fn wf(&self) -> bool {
        spec_groups_wf(self@.groups)
    }

    /// An empty registry.
    pub fn new() -> (r: Self)
        ensures
            r@.groups.len() == 0,
            r.wf(),
    {
        let r = GroupRegistry { groups: Vec::new() };
        proof {
            assert(r@.groups =~= Seq::<CommandGroupView>::empty());
        }
        r
    }

    /// The index of the group with the id, if any.
    fn find_group(&self, id: &String) -> (r: Option<usize>)
        ensures
            match r {
                Option::Some(i) => 0 <= i < self@.groups.len() && self@.groups[i as int].id
                    == id@,
                Option::None => !spec_contains_gid(self@.groups, id@),
            },
    {
        let n = self.groups.len();
        let mut i: usize = 0;
        while i < n
            invariant
                n == self@.groups.len(),
                0 <= i <= n,
                forall|j: int| 0 <= j < i ==> self@.groups[j].id != id@,
            decreases n - i,
        {
            if self.groups[i].id == *id {
                return Option::Some(i);
            }
            i = i + 1;
        }
        Option::None
    }

    /// Replace the whole store, as when hydrating from persisted storage at
    /// startup; a group whose id repeats an earlier one is dropped, and
    /// within each kept group a command whose id repeats an earlier one is
    /// dropped.
    pub fn load_groups(&mut self, groups_data: Vec<CommandGroup>)
        ensures
            final(self).wf(),
            final(self)@.groups == spec_load_groups(spec_group_views(groups_data@)),
    {
        let n = groups_data.len();
        let mut out: Vec<CommandGroup> = Vec::new();
        proof {
            assert(spec_group_views(out@) =~= spec_load_groups(
                spec_group_views(groups_data@).take(0),
            ));
        }
        let mut i: usize = 0;
        while i < n
            invariant
                n == groups_data@.len(),
                0 <= i <= n,
                spec_group_views(out@) == spec_load_groups(
                    spec_group_views(groups_data@).take(i as int),
                ),
            decreases n - i,
        {
            let ghost allv = spec_group_views(groups_data@);
            if !out_has_gid(&out, &groups_data[i].id) {
                let g = groups_data[i].clone();
                let kept = CommandGroup {
                    id: g.id,
                    title: g.title,
                    commands: sanitize_commands(g.commands),
                };
                proof {
                    assert(kept@ == spec_sanitize_group(groups_data@[i as int]@));
                }
                out.push(kept);
            }
            proof {
                assert(allv.take(i + 1).drop_last() =~= allv.take(i as int));
                assert(allv.take(i + 1).last() == groups_data@[i as int]@);
                assert(spec_group_views(out@) =~= spec_load_groups(allv.take(i + 1)));
            }
            i = i + 1;
        }
        proof {
            let allv = spec_group_views(groups_data@);
            assert(allv.take(n as int) =~= allv);
            lemma_load_groups(allv);
        }
        self.groups = out;
    }

    /// Make an empty group under a fresh id and hand the id back.
    pub fn create_group(&mut self, title: String) -> (r: Result<String, ApiError>)
        requires
            old(self).wf(),
        ensures
            final(self).wf(),
            match r {
                Result::Ok(id) => {
                    &&& !spec_contains_gid(old(self)@.groups, id@)
                    &&& final(self)@.groups == old(self)@.groups.push(
                        CommandGroupView { id: id@, title: title@, commands: Seq::empty() },
                    )
                },
                Result::Err(e) => {
                    &&& e == ApiError::InvalidInput
                    &&& final(self)@.groups == old(self)@.groups
                },
            },
            old(self)@.groups.len() == 0 ==> r is Ok,
    {
        let id = fresh_uuid();
        if self.find_group(&id).is_some() {
            return Result::Err(ApiError::InvalidInput);
        }
        let group = CommandGroup { id: id.clone(), title, commands: Vec::new() };
        proof {
            assert(group@.commands =~= Seq::<CommandItemView>::empty());
        }
        self.groups.push(group);
        proof {
            let oldv = old(self)@.groups;
            let newv = final(self)@.groups;
            assert(newv =~= oldv.push(newv.last()));
            assert forall|i: int, j: int|
                0 <= i < j < newv.len() implies newv[i].id != newv[j].id by {
                if j == oldv.len() {
                    if newv[i].id == newv[j].id {
                        assert(spec_contains_gid(oldv, id@));
                    }
                }
            }
        }
        Result::Ok(id)
    }

    /// A point-in-time copy of every group, in store order.
    pub fn get_groups(&self) -> (r: Vec<CommandGroup>)
        ensures
            spec_group_views(r@) == self@.groups,
    {
        let n = self.groups.len();
        let mut out: Vec<CommandGroup> = Vec::new();
        let mut i: usize = 0;
        while i < n
            invariant
                n == self@.groups.len(),
                0 <= i <= n,
                out@.len() == i,
                forall|j: int| 0 <= j < i ==> out@[j]@ == self@.groups[j],
            decreases n - i,
        {
            out.push(self.groups[i].clone());
            i = i + 1;
        }
        proof {
            assert(spec_group_views(out@) =~= self@.groups);
        }
        out
    }

    /// Drop the group with the id; deleting an unknown id changes nothing.
    /// Schedules pointing at the group are left alone: they degrade to an
    /// unknown target, they are not cascaded away.
    pub fn delete_group(&mut self, id: &String)
        requires
            old(self).wf(),
        ensures
            final(self).wf(),
            spec_contains_gid(old(self)@.groups, id@) ==> final(self)@.groups == old(
                self,
            )@.groups.remove(spec_index_of_gid(old(self)@.groups, id@)),
            !spec_contains_gid(old(self)@.groups, id@) ==> final(self)@.groups == old(
                self,
            )@.groups,
    {
        match self.find_group(id) {
            Option::Some(i) => {
                self.groups.remove(i);
                proof {
                    let oldv = old(self)@.groups;
                    let idx = spec_index_of_gid(oldv, id@);
                    assert(oldv[idx].id == id@);
                    if idx != i {
                        assert(false);
                    }
                    assert(final(self)@.groups =~= oldv.remove(i as int));
                    let newv = final(self)@.groups;
                    assert(forall|a: int|
                        0 <= a < newv.len() ==> newv[a] == oldv[
                            if a < i {
                                a
                            } else {
                                a + 1
                            }
                        ]);
                }
            },
            Option::None => {},
        }
    }

    /// Retitle the group with the id; an unknown id is refused and the
    /// store is untouched.
    pub fn update_group(&mut self, id: &String, title: String) -> (r: Result<(), ApiError>)
        requires
            old(self).wf(),
        ensures
            final(self).wf(),
            match r {
                Result::Ok(()) => {
                    &&& spec_contains_gid(old(self)@.groups, id@)
                    &&& {
                        let i = spec_index_of_gid(old(self)@.groups, id@);
                        final(self)@.groups == old(self)@.groups.update(
                            i,
                            CommandGroupView { title: title@, ..old(self)@.groups[i] },
                        )
                    }
                },
                Result::Err(e) => {
                    &&& e == ApiError::NotFound
                    &&& !spec_contains_gid(old(self)@.groups, id@)
                    &&& final(self)@.groups == old(self)@.groups
                },
            },
    {
        match self.find_group(id) {
            Option::Some(i) => {
                let mut g = self.groups[i].clone();
                g.title = title;
                self.groups.set(i, g);
                proof {
                    let oldv = old(self)@.groups;
                    let idx = spec_index_of_gid(oldv, id@);
                    assert(oldv[idx].id == id@);
                    if idx != i {
                        assert(false);
                    }
                    assert(final(self)@.groups =~= oldv.update(
                        i as int,
                        CommandGroupView { title: title@, ..oldv[i as int] },
                    ));
                }
                Result::Ok(())
            },
            Option::None => Result::Err(ApiError::NotFound),
        }
    }

    /// Append a command under a fresh id to the group with the id, and hand
    /// the command's id back. An unknown group is refused with `NotFound`
    /// and the store is untouched.
    pub fn add_command_to_group(
        &mut self,
        group_id: &String,
        label: String,
        cmd: String,
        is_detached: bool,
    ) -> (r: Result<String, ApiError>)
        requires
            old(self).wf(),
        ensures
            final(self).wf(),
            match r {
                Result::Ok(cid) => {
                    &&& spec_contains_gid(old(self)@.groups, group_id@)
                    &&& {
                        let i = spec_index_of_gid(old(self)@.groups, group_id@);
                        let g = old(self)@.groups[i];
                        &&& !spec_contains_cid(g.commands, cid@)
                        &&& final(self)@.groups == old(self)@.groups.update(
                            i,
                            CommandGroupView {
                                commands: g.commands.push(
                                    CommandItemView {
                                        id: cid@,
                                        label: label@,
                                        cmd: cmd@,
                                        is_detached: is_detached,
                                    },
                                ),
                                ..g
                            },
                        )
                    }
                },
                Result::Err(e) => {
                    &&& final(self)@.groups == old(self)@.groups
                    &&& (e == ApiError::NotFound <==> !spec_contains_gid(
                        old(self)@.groups,
                        group_id@,
                    ))
                    &&& (e == ApiError::NotFound || e == ApiError::InvalidInput)
                },
            },
            (spec_contains_gid(old(self)@.groups, group_id@) && old(self)@.groups[
                spec_index_of_gid(old(self)@.groups, group_id@)
            ].commands.len() == 0) ==> r is Ok,
    {
        let i = match self.find_group(group_id) {
            Option::Some(i) => i,
            Option::None => {
                return Result::Err(ApiError::NotFound);
            },
        };
        proof {
            let idx = spec_index_of_gid(old(self)@.groups, group_id@);
            assert(old(self)@.groups[idx].id == group_id@);
            if idx != i {
                assert(false);
            }
        }
        let cid = fresh_uuid();
        let mut g = self.groups[i].clone();
        if find_command(&g.commands, &cid).is_some() {
            return Result::Err(ApiError::InvalidInput);
        }
        let item = CommandItem { id: cid.clone(), label, cmd, is_detached };
        g.commands.push(item);
        self.groups.set(i, g);
        proof {
            let oldv = old(self)@.groups;
            let newv = final(self)@.groups;
            let idx = spec_index_of_gid(oldv, group_id@);
            assert(oldv[idx].id == group_id@);
            if idx != i {
                assert(false);
            }
            let oldg = oldv[i as int];
            assert(newv[i as int].commands =~= oldg.commands.push(
                CommandItemView { id: cid@, label: label@, cmd: cmd@, is_detached: is_detached },
            ));
            assert(newv =~= oldv.update(i as int, newv[i as int]));
            assert forall|a: int, b: int|
                0 <= a < b < newv[i as int].commands.len()
                    implies newv[i as int].commands[a].id != newv[i as int].commands[b].id by {
                if b == oldg.commands.len() {
                    if newv[i as int].commands[a].id == newv[i as int].commands[b].id {
                        assert(spec_contains_cid(oldg.commands, cid@));
                    }
                }
            }
        }
        Result::Ok(cid)
    }

    /// Drop the command with the id from the group with the id; an unknown
    /// group is refused with `NotFound`, an unknown command in a known group
    /// changes nothing.
    pub fn delete_command_from_group(&mut self, group_id: &String, command_id: &String) -> (r:
        Result<(), ApiError>)
        requires
            old(self).wf(),
        ensures
            final(self).wf(),
            match r {
                Result::Ok(()) => {
                    &&& spec_contains_gid(old(self)@.groups, group_id@)
                    &&& {
                        let i = spec_index_of_gid(old(self)@.groups, group_id@);
                        let g = old(self)@.groups[i];
                        if spec_contains_cid(g.commands, command_id@) {
                            final(self)@.groups == old(self)@.groups.update(
                                i,
                                CommandGroupView {
                                    commands: g.commands.remove(
                                        spec_index_of_cid(g.commands, command_id@),
                                    ),
                                    ..g
                                },
                            )
                        } else {
                            final(self)@.groups == old(self)@.groups
                        }
                    }
                },
                Result::Err(e) => {
                    &&& e == ApiError::NotFound
                    &&& !spec_contains_gid(old(self)@.groups, group_id@)
                    &&& final(self)@.groups == old(self)@.groups
                },
            },
    {
        let i = match self.find_group(group_id) {
            Option::Some(i) => i,
            Option::None => {
                return Result::Err(ApiError::NotFound);
            },
        };
        let mut g = self.groups[i].clone();
        match find_command(&g.commands, command_id) {
            Option::Some(c) => {
                g.commands.remove(c);
                self.groups.set(i, g);
                proof {
                    let oldv = old(self)@.groups;
                    let newv = final(self)@.groups;
                    let idx = spec_index_of_gid(oldv, group_id@);
                    assert(oldv[idx].id == group_id@);
                    if idx != i {
                        assert(false);
                    }
                    let oldg = oldv[i as int];
                    let cidx = spec_index_of_cid(oldg.commands, command_id@);
                    assert(oldg.commands[cidx].id == command_id@);
                    if cidx != c {
                        assert(false);
                    }
                    assert(newv[i as int].commands =~= oldg.commands.remove(c as int));
                    assert(newv =~= oldv.update(
                        i as int,
                        CommandGroupView {
                            commands: oldg.commands.remove(cidx),
                            ..oldg
                        },
                    ));
                    assert(forall|a: int|
                        0 <= a < newv[i as int].commands.len() ==> newv[i as int].commands[a]
                            == oldg.commands[
                            if a < c {
                                a
                            } else {
                                a + 1
                            }
                        ]);
                }
                Result::Ok(())
            },
            Option::None => {
                proof {
                    if spec_contains_cid(old(self)@.groups[i as int].commands, command_id@) {
                        let cidx = spec_index_of_cid(
                            old(self)@.groups[i as int].commands,
                            command_id@,
                        );
                        assert(g@.commands[cidx].id == command_id@);
                        assert(false);
                    }
                }
                Result::Ok(())
            },
        }
    }

    /// Rewrite the label, text and detach flag of the command with the id in
    /// the group with the id; an unknown group or command is refused with
    /// `NotFound` and the store is untouched.
    pub fn update_command(
        &mut self,
        group_id: &String,
        command_id: &String,
        label: String,
        cmd: String,
        is_detached: bool,
    ) -> (r: Result<(), ApiError>)
        requires
            old(self).wf(),
        ensures
            final(self).wf(),
            match r {
                Result::Ok(()) => {
                    &&& spec_contains_gid(old(self)@.groups, group_id@)
                    &&& {
                        let i = spec_index_of_gid(old(self)@.groups, group_id@);
                        let g = old(self)@.groups[i];
                        &&& spec_contains_cid(g.commands, command_id@)
                        &&& final(self)@.groups == old(self)@.groups.update(
                            i,
                            CommandGroupView {
                                commands: g.commands.update(
                                    spec_index_of_cid(g.commands, command_id@),
                                    CommandItemView {
                                        id: command_id@,
                                        label: label@,
                                        cmd: cmd@,
                                        is_detached: is_detached,
                                    },
                                ),
                                ..g
                            },
                        )
                    }
                },
                Result::Err(e) => {
                    &&& e == ApiError::NotFound
                    &&& final(self)@.groups == old(self)@.groups
                    &&& !(spec_contains_gid(old(self)@.groups, group_id@)
                        && spec_contains_cid(
                        old(self)@.groups[spec_index_of_gid(old(self)@.groups, group_id@)]
                            .commands,
                        command_id@,
                    ))
                },
            },
    {
        let i = match self.find_group(group_id) {
            Option::Some(i) => i,
            Option::None => {
                return Result::Err(ApiError::NotFound);
            },
        };
        let mut g = self.groups[i].clone();
        let c = match find_command(&g.commands, command_id) {
            Option::Some(c) => c,
            Option::None => {
                proof {
                    if spec_contains_cid(old(self)@.groups[i as int].commands, command_id@) {
                        let cidx = spec_index_of_cid(
                            old(self)@.groups[i as int].commands,
                            command_id@,
                        );
                        assert(g@.commands[cidx].id == command_id@);
                        assert(false);
                    }
                }
                return Result::Err(ApiError::NotFound);
            },
        };
        let item = CommandItem { id: command_id.clone(), label, cmd, is_detached };
        g.commands.set(c, item);
        self.groups.set(i, g);
        proof {
            let oldv = old(self)@.groups;
            let newv = final(self)@.groups;
            let idx = spec_index_of_gid(oldv, group_id@);
            assert(oldv[idx].id == group_id@);
            if idx != i {
                assert(false);
            }
            let oldg = oldv[i as int];
            let cidx = spec_index_of_cid(oldg.commands, command_id@);
            assert(oldg.commands[cidx].id == command_id@);
            if cidx != c {
                assert(false);
            }
            assert(newv[i as int].commands =~= oldg.commands.update(
                cidx,
                CommandItemView {
                    id: command_id@,
                    label: label@,
                    cmd: cmd@,
                    is_detached: is_detached,
                },
            ));
            assert(newv =~= oldv.update(i as int, newv[i as int]));
            assert forall|a: int, b: int|
                0 <= a < b < newv[i as int].commands.len()
                    implies newv[i as int].commands[a].id != newv[i as int].commands[b].id by {
                assert(oldg.commands[a].id != oldg.commands[b].id);
            }
        }
        Result::Ok(())
    }

    /// A copy of the command with the id in the group with the id, if both
    /// exist.
    pub fn resolve_command(&self, group_id: &String, command_id: &String) -> (r: Option<
        CommandItem,
    >)
        requires
            self.wf(),
        ensures
            match r {
                Option::Some(c) => {
                    &&& spec_contains_gid(self@.groups, group_id@)
                    &&& {
                        let g = self@.groups[spec_index_of_gid(self@.groups, group_id@)];
                        &&& spec_contains_cid(g.commands, command_id@)
                        &&& c@ == g.commands[spec_index_of_cid(g.commands, command_id@)]
                    }
                },
                Option::None => !spec_contains_gid(self@.groups, group_id@)
                    || !spec_contains_cid(
                    self@.groups[spec_index_of_gid(self@.groups, group_id@)].commands,
                    command_id@,
                ),
            },
    {
        let i = match self.find_group(group_id) {
            Option::Some(i) => i,
            Option::None => {
                return Option::None;
            },
        };
        proof {
            let idx = spec_index_of_gid(self@.groups, group_id@);
            assert(self@.groups[idx].id == group_id@);
            if idx != i {
                assert(false);
            }
        }
        match find_command(&self.groups[i].commands, command_id) {
            Option::Some(c) => {
                let item = self.groups[i].commands[c].clone();
                proof {
                    let g = self@.groups[i as int];
                    let cidx = spec_index_of_cid(g.commands, command_id@);
                    assert(g.commands[cidx].id == command_id@);
                    if cidx != c {
                        assert(false);
                    }
                }
                Option::Some(item)
            },
            Option::None => Option::None,
        }
    }

    /// A copy of the group with the id, if it exists.
    pub fn resolve_group(&self, id: &String) -> (r: Option<CommandGroup>)
        requires
            self.wf(),
        ensures
            match r {
                Option::Some(g) => spec_contains_gid(self@.groups, id@) && g@ == self@.groups[
                    spec_index_of_gid(self@.groups, id@)
                ],
                Option::None => !spec_contains_gid(self@.groups, id@),
            },
    {
        match self.find_group(id) {
            Option::Some(i) => {
                let g = self.groups[i].clone();
                proof {
                    let idx = spec_index_of_gid(self@.groups, id@);
                    assert(self@.groups[idx].id == id@);
                    if idx != i {
                        assert(false);
                    }
                }
                Option::Some(g)
            },
            Option::None => Option::None,
        }
    }
}

} // verus!
