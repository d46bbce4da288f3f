//! Selection of components by the protection level of the permissions that
//! guard them.

use crate::manifest::component::{Component, ComponentView};
use crate::text::{contains_text, optional_view, str_eq, views};
use vstd::prelude::*;
use vstd::string::*;

verus! {

/// The protection level of one permission.
#[derive(Debug)]
pub struct PermissionLevel {
    pub permission: String,
    pub level: String,
}

/// What a `PermissionLevel` holds.
pub struct PermissionLevelView {
    pub permission: Seq<char>,
    pub level: Seq<char>,
}

impl View for PermissionLevel {
    type V = PermissionLevelView;

    open spec fn view(&self) -> PermissionLevelView {
        PermissionLevelView { permission: self.permission@, level: self.level@ }
    }
}

/// The rank of a protection level: `normal` 1, `dangerous` 2, `signature` 3,
/// `signature|privileged` 4, any other 0.
pub open spec fn level_value(level: Seq<char>) -> int {
    if level == "normal"@ {
        1
    } else if level == "dangerous"@ {
        2
    } else if level == "signature"@ {
        3
    } else if level == "signature|privileged"@ {
        4
    } else {
        0
    }
}

/// The level that the first entry of the table gives for a permission.
pub open spec fn protection_level(table: Seq<PermissionLevelView>, permission: Seq<char>) -> Option<
    Seq<char>,
>
    decreases table.len(),
{
    if table.len() == 0 {
        None
    } else {
        match protection_level(table.drop_last(), permission) {
            Some(level) => Some(level),
            None => if table.last().permission == permission {
                Some(table.last().level)
            } else {
                None
            },
        }
    }
}

/// The rank of a permission: that of its level, 0 where the table has none.
pub open spec fn permission_value(table: Seq<PermissionLevelView>, permission: Seq<char>) -> int {
    match protection_level(table, permission) {
        Some(level) => level_value(level),
        None => 0,
    }
}

/// The highest rank among the permissions, 0 for none.
pub open spec fn highest_value(table: Seq<PermissionLevelView>, permissions: Seq<Seq<char>>) -> int
    decreases permissions.len(),
{
    if permissions.len() == 0 {
        0
    } else {
        let front = highest_value(table, permissions.drop_last());
        let last = permission_value(table, permissions.last());
        if last > front {
            last
        } else {
            front
        }
    }
}

/// The rank that a component demands: the highest among its permissions and
/// those of its intent filters, and that of `normal` where it has none.
pub open spec fn demanded_value(table: Seq<PermissionLevelView>, component: ComponentView) -> int {
    let own = highest_value(table, component.permissions);
    let filters = highest_value(table, component.intent_filter_permissions);
    let highest = if filters > own {
        filters
    } else {
        own
    };
    if highest == 0 {
        1
    } else {
        highest
    }
}

/// The rank of a protection level.
pub fn get_permission_level_value(level: &str) -> (value: u8)
    ensures
        value == level_value(level@),
{
    if str_eq(level, "normal") {
        1
    } else if str_eq(level, "dangerous") {
        2
    } else if str_eq(level, "signature") {
        3
    } else if str_eq(level, "signature|privileged") {
        4
    } else {
        0
    }
}

/// The level that the table gives for a permission.
pub fn get_permission_protection_level(table: &Vec<PermissionLevel>, permission: &str) -> (level:
    Option<String>)
    ensures
        optional_view(level) == protection_level(views(table@), permission@),
{
    let mut level: Option<String> = None;
    let mut i: usize = 0;
    assert(views(table@).subrange(0, 0) =~= Seq::<PermissionLevelView>::empty());
    while i < table.len()
        invariant
            i <= table@.len(),
            optional_view(level) == protection_level(
                views(table@).subrange(0, i as int),
                permission@,
            ),
        decreases table@.len() - i,
    {
        let ghost upto = views(table@).subrange(0, i + 1);
        assert(upto.drop_last() =~= views(table@).subrange(0, i as int));
        assert(upto.last() == table@[i as int]@);
        if level.is_none() && str_eq(table[i].permission.as_str(), permission) {
            level = Some(table[i].level.clone());
        }
        i += 1;
    }
    assert(views(table@).subrange(0, table@.len() as int) =~= views(table@));
    level
}

/// The highest rank among the permissions.
fn highest_of(table: &Vec<PermissionLevel>, permissions: &Vec<String>) -> (highest: u8)
    ensures
        highest == highest_value(views(table@), views(permissions@)),
{
    let mut highest: u8 = 0;
    let mut i: usize = 0;
    assert(views(permissions@).subrange(0, 0) =~= Seq::<Seq<char>>::empty());
    while i < permissions.len()
        invariant
            i <= permissions@.len(),
            highest == highest_value(views(table@), views(permissions@).subrange(0, i as int)),
        decreases permissions@.len() - i,
    {
        let ghost upto = views(permissions@).subrange(0, i + 1);
        assert(upto.drop_last() =~= views(permissions@).subrange(0, i as int));
        assert(upto.last() == permissions@[i as int]@);
        let value = match get_permission_protection_level(table, permissions[i].as_str()) {
            Some(level) => get_permission_level_value(level.as_str()),
            None => 0,
        };
        if value > highest {
            highest = value;
        }
        i += 1;
    }
    assert(views(permissions@).subrange(0, permissions@.len() as int) =~= views(permissions@));
    highest
}

/// Whether a component is shown when permissions up to `max_level` are
/// wanted: the rank that it demands does not exceed that of `max_level`.
pub fn should_show_component(
    component: &Component,
    max_level: &str,
    table: &Vec<PermissionLevel>,
) -> (shown: bool)
    ensures
        shown == (demanded_value(views(table@), component@) <= level_value(max_level@)),
{
    let limit = get_permission_level_value(max_level);
    let own = highest_of(table, &component.permissions);
    let filters = highest_of(table, &component.intent_filter_permissions);
    let mut highest = if filters > own {
        filters
    } else {
        own
    };
    if highest == 0 {
        highest = 1;
    }
    highest <= limit
}

/// Whether a component is kept for analysis: its package is installed where
/// only installed packages are wanted, and it has no shared user id where
/// such components are left out.
pub fn is_selected(component: &Component, alive: Option<&Vec<String>>, no_shared_user_id: bool) -> (
    selected: bool)
    ensures
        selected == ((alive matches Some(packages) ==> views(packages@).contains(
            component@.package,
        )) && !(no_shared_user_id && component@.shared_user_id is Some)),
{
    let installed = match alive {
        Some(packages) => contains_text(packages, component.package.as_str()),
        None => true,
    };
    installed && !(no_shared_user_id && component.shared_user_id.is_some())
}

} // verus!
