//! Listing users.

use vstd::prelude::*;
use crate::text::{contains_string, str_eq, string_views};

verus! {

/// The options of `re get users`.
pub struct GetUsersArgs {
    /// A single user, by name or id.
    pub user: Option<String>,
    /// Only users with a permission in this project.
    pub project_name_filter: Option<String>,
    /// Only users with this permission in the project.
    pub project_permission_filter: Option<String>,
}

/// `--permission` filters within a project, so it needs `--project`.
pub fn validate_filter_arguments(
    project_name_filter: &Option<String>,
    project_permission_filter: &Option<String>,
) -> (result: Result<(), String>)
    ensures
        result is Err <==> (project_name_filter is None && project_permission_filter is Some),
        result matches Err(message) ==> message@
            == "You cannot filter on `permission` without a `project`"@,
{
    if project_name_filter.is_none() && project_permission_filter.is_some() {
        Err(crate::text::owned("You cannot filter on `permission` without a `project`"))
    } else {
        Ok(())
    }
}

/// A user as the project filter reads them: the permissions held in each
/// project of the organisation, by project name.
pub struct UserPermissions {
    pub id: String,
    pub projects: Vec<(String, Vec<String>)>,
}

/// The user holds permissions in `project` (the first entry of that name
/// decides) and, where a permission is asked for, it is among them.
pub open spec fn passes_project_filter(
    user: UserPermissions,
    project: Seq<char>,
    permission: Option<Seq<char>>,
) -> bool {
    let entries = user.projects@;
    exists|i: int|
        0 <= i < entries.len() && (#[trigger] entries[i]).0@ == project && (forall|j: int|
            0 <= j < i ==> entries[j].0@ != project) && match permission {
            None => true,
            Some(p) => string_views(entries[i].1@).contains(p),
        }
}

/// The users of `users` that pass the project filter, in order.
pub open spec fn users_passing(
    users: Seq<UserPermissions>,
    project: Seq<char>,
    permission: Option<Seq<char>>,
) -> Seq<UserPermissions>
    decreases users.len(),
{
    if users.len() == 0 {
        Seq::empty()
    } else if passes_project_filter(users.last(), project, permission) {
        users_passing(users.drop_last(), project, permission).push(users.last())
    } else {
        users_passing(users.drop_last(), project, permission)
    }
}

/// The permissions listed under the first entry of `entries` named
/// `project`, if there is one.
pub open spec fn permissions_in_project(
    entries: Seq<(String, Vec<String>)>,
    project: Seq<char>,
) -> Option<Seq<Seq<char>>>
    decreases entries.len(),
{
    if entries.len() == 0 {
        None
    } else if entries[0].0@ == project {
        Some(string_views(entries[0].1@))
    } else {
        permissions_in_project(entries.drop_first(), project)
    }
}

/// The project filter reads only the named project: a user passes exactly
/// when they hold permissions in it and, where a permission is asked for,
/// that permission is listed under the project itself. Permissions held in
/// other projects never make a user pass, so two users with the same
/// permissions in the project are treated alike.
pub proof fn lemma_project_filter_reads_only_the_project(
    user: UserPermissions,
    other: UserPermissions,
    project: Seq<char>,
    permission: Option<Seq<char>>,
)
    ensures
        passes_project_filter(user, project, permission) <==> match permissions_in_project(
            user.projects@,
            project,
        ) {
            None => false,
            Some(held) => match permission {
                None => true,
                Some(p) => held.contains(p),
            },
        },
        permissions_in_project(user.projects@, project) == permissions_in_project(
            other.projects@,
            project,
        ) ==> (passes_project_filter(user, project, permission) == passes_project_filter(
            other,
            project,
            permission,
        )),
{
    lemma_first_entry(user.projects@, project);
    lemma_first_entry(other.projects@, project);
}

proof fn lemma_first_entry(entries: Seq<(String, Vec<String>)>, project: Seq<char>)
    ensures
        permissions_in_project(entries, project) matches Some(held) ==> exists|i: int|
            0 <= i < entries.len() && (#[trigger] entries[i]).0@ == project && (forall|j: int|
                0 <= j < i ==> entries[j].0@ != project) && held == string_views(entries[i].1@),
        permissions_in_project(entries, project) is None ==> forall|i: int|
            0 <= i < entries.len() ==> (#[trigger] entries[i]).0@ != project,
    decreases entries.len(),
{
    if entries.len() > 0 {
        let rest = entries.drop_first();
        lemma_first_entry(rest, project);
        if entries[0].0@ != project {
            if permissions_in_project(rest, project) is Some {
                let i = choose|i: int|
                    0 <= i < rest.len() && (#[trigger] rest[i]).0@ == project && (forall|j: int|
                        0 <= j < i ==> rest[j].0@ != project) && permissions_in_project(
                        rest,
                        project,
                    )->0 == string_views(rest[i].1@);
                assert(entries[i + 1] == rest[i]);
                assert forall|j: int| 0 <= j < i + 1 implies entries[j].0@ != project by {
                    if j > 0 {
                        assert(entries[j] == rest[j - 1]);
                    }
                }
            } else {
                assert forall|i: int| 0 <= i < entries.len() implies (#[trigger] entries[i]).0@
                    != project by {
                    if i > 0 {
                        assert(entries[i] == rest[i - 1]);
                    }
                }
            }
        }
    }
}

/// The user holds permissions in `project` and, where a permission is asked
/// for, it is listed under that project.
pub open spec fn holds_in_project(
    user: UserPermissions,
    project: Seq<char>,
    permission: Option<Seq<char>>,
) -> bool {
    match permissions_in_project(user.projects@, project) {
        None => false,
        Some(held) => match permission {
            None => true,
            Some(p) => held.contains(p),
        },
    }
}

/// Filtering keeps exactly the users that hold the asked permission in the
/// project: every kept user comes from the list and holds it there, and
/// every user of the list that holds it there is kept.
pub proof fn lemma_filter_keeps_exactly_the_project_holders(
    users: Seq<UserPermissions>,
    project: Seq<char>,
    permission: Option<Seq<char>>,
)
    ensures
        forall|n: int|
            0 <= n < users_passing(users, project, permission).len() ==> users.contains(
                #[trigger] users_passing(users, project, permission)[n],
            ) && holds_in_project(users_passing(users, project, permission)[n], project, permission),
        forall|u: int|
            0 <= u < users.len() && holds_in_project(#[trigger] users[u], project, permission)
                ==> users_passing(users, project, permission).contains(users[u]),
    decreases users.len(),
{
    if users.len() > 0 {
        let init = users.drop_last();
        lemma_filter_keeps_exactly_the_project_holders(init, project, permission);
        let last = users.last();
        lemma_project_filter_reads_only_the_project(last, last, project, permission);
        let kept = users_passing(users, project, permission);
        let before = users_passing(init, project, permission);
        assert forall|n: int| 0 <= n < kept.len() implies users.contains(#[trigger] kept[n])
            && holds_in_project(kept[n], project, permission) by {
            if n < before.len() {
                assert(kept[n] == before[n]);
                let k = choose|k: int| 0 <= k < init.len() && init[k] == before[n];
                assert(users[k] == init[k]);
                lemma_project_filter_reads_only_the_project(kept[n], kept[n], project, permission);
            } else {
                assert(kept[n] == last);
                assert(users[users.len() - 1] == last);
            }
        }
        assert forall|u: int| 0 <= u < users.len() && holds_in_project(
            #[trigger] users[u],
            project,
            permission,
        ) implies kept.contains(users[u]) by {
            if u < users.len() - 1 {
                assert(init[u] == users[u]);
                let k = choose|k: int| 0 <= k < before.len() && before[k] == init[u];
                assert(kept[k] == before[k]);
            } else {
                assert(kept[kept.len() - 1] == last);
            }
        }
    }
}

/// Whether `user` passes the project filter.
fn user_passes(user: &UserPermissions, project_name: &str, permission: &Option<String>) -> (passes:
    bool)
    ensures
        passes == passes_project_filter(
            *user,
            project_name@,
            match permission {
                Some(p) => Some(p@),
                None => None,
            },
        ),
{
    let ghost wanted = match permission {
        Some(p) => Some(p@),
        None => None,
    };
    let entries = &user.projects;
    let mut i: usize = 0;
    while i < entries.len()
        invariant
            i <= entries.len(),
            entries@ == user.projects@,
            wanted == match permission {
                Some(p) => Some(p@),
                None => None,
            },
            forall|j: int| 0 <= j < i ==> entries@[j].0@ != project_name@,
        decreases entries.len() - i,
    {
        if str_eq(entries[i].0.as_str(), project_name) {
            let holds = match permission {
                Some(p) => contains_string(entries[i].1.as_slice(), p.as_str()),
                None => true,
            };
            proof {
                let k = i as int;
                assert(entries@[k].0@ == project_name@);
                assert(holds == match wanted {
                    None => true,
                    Some(p) => string_views(entries@[k].1@).contains(p),
                });
                if holds {
                    assert(passes_project_filter(*user, project_name@, wanted));
                } else {
                    assert forall|w: int|
                        0 <= w < entries@.len() && (#[trigger] entries@[w]).0@ == project_name@
                            && (forall|j: int| 0 <= j < w ==> entries@[j].0@ != project_name@)
                        implies !match wanted {
                            None => true,
                            Some(p) => string_views(entries@[w].1@).contains(p),
                        } by {
                        if w < k {
                        } else if w > k {
                            assert(entries@[k].0@ != project_name@);
                        }
                    }
                }
            }
            return holds;
        }
        i = i + 1;
    }
    false
}

/// Keeps the users that hold permissions in `project_name`, and, where
/// `project_permission_filter` names one, hold that permission there.
pub fn filter_users_by_project(
    users: &mut Vec<UserPermissions>,
    project_name: &str,
    project_permission_filter: &Option<String>,
)
    ensures
        final(users)@ == users_passing(
            old(users)@,
            project_name@,
            match project_permission_filter {
                Some(p) => Some(p@),
                None => None,
            },
        ),
        forall|n: int|
            0 <= n < final(users)@.len() ==> old(users)@.contains(#[trigger] final(users)@[n])
                && holds_in_project(
                final(users)@[n],
                project_name@,
                match project_permission_filter {
                    Some(p) => Some(p@),
                    None => None,
                },
            ),
        forall|u: int|
            0 <= u < old(users)@.len() && holds_in_project(
                #[trigger] old(users)@[u],
                project_name@,
                match project_permission_filter {
                    Some(p) => Some(p@),
                    None => None,
                },
            ) ==> final(users)@.contains(old(users)@[u]),
{
    proof {
        lemma_filter_keeps_exactly_the_project_holders(
            old(users)@,
            project_name@,
            match project_permission_filter {
                Some(p) => Some(p@),
                None => None,
            },
        );
    }
    let ghost wanted = match project_permission_filter {
        Some(p) => Some(p@),
        None => None,
    };
    let ghost all = users@;
    let count = users.len();
    let mut rest: Vec<UserPermissions> = Vec::new();
    std::mem::swap(users, &mut rest);
    let mut kept: Vec<UserPermissions> = Vec::new();
    let mut i: usize = 0;
    assert(all.skip(0) =~= all);
    while rest.len() > 0
        invariant
            i <= all.len(),
            all.len() == count,
            rest@ == all.skip(i as int),
            kept@ == users_passing(all.take(i as int), project_name@, wanted),
            wanted == match project_permission_filter {
                Some(p) => Some(p@),
                None => None,
            },
        decreases rest@.len(),
    {
        let user = rest.remove(0);
        proof {
            assert(user == all[i as int]);
            assert(all.take(i + 1).drop_last() =~= all.take(i as int));
            assert(all.take(i + 1).last() == all[i as int]);
            assert(rest@ =~= all.skip(i + 1));
        }
        if user_passes(&user, project_name, project_permission_filter) {
            kept.push(user);
        }
        i = i + 1;
    }
    assert(all.take(i as int) =~= all);
    *users = kept;
}

} // verus!
