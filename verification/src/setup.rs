//! Planning the symlink farm: one link per translation rule, inside the
//! workspace directory.
//!
//! For each rule, in order, the link is to live at `workspace_dir/called_name`
//! and point at `actual_path` exactly as given.  A rule whose source is not an
//! existing regular file aborts the whole setup with an error naming that
//! path, before any later rule is considered.
//!
//! The workspace contents are modelled as a map from link name to link
//! target: installing the links in order makes the last rule of a name win.

use vstd::prelude::*;

use crate::args::RuleView;
use crate::args::TranslationRule;
use crate::error::NsCmdError;

verus! {

/// One planned symlink installation: create a link at `link_path` pointing at
/// `target`, and report it with `progress_line`.
#[derive(Debug)]
pub struct LinkAction {
    pub link_path: String,
    pub target: String,
    pub progress_line: String,
}

/// The path of the entry `name` inside the directory `dir`.
pub open spec fn join_path(dir: Seq<char>, name: Seq<char>) -> Seq<char> {
    dir + "/"@ + name
}

/// The progress report for a link at `link` pointing at `actual`.
pub open spec fn progress_line_spec(actual: Seq<char>, link: Seq<char>) -> Seq<char> {
    actual + " -> "@ + link
}

/// Whether `action` is the installation the rule asks for, inside
/// `workspace_dir`.
pub open spec fn action_for(action: LinkAction, workspace_dir: Seq<char>, rule: RuleView) -> bool {
    &&& action.link_path@ == join_path(workspace_dir, rule.called_name)
    &&& action.target@ == rule.actual_path
    &&& action.progress_line@ == progress_line_spec(
        rule.actual_path,
        join_path(workspace_dir, rule.called_name),
    )
}

/// Decide one rule: when its source is an existing regular file, the link to
/// install; otherwise the error naming the missing path.
///
/// Whether the source is a regular file is established by the caller, which
/// owns the filesystem; this function only decides what follows from it.
pub fn plan_link(workspace_dir: &str, rule: &TranslationRule, source_is_file: bool) -> (r: Result<
    LinkAction,
    NsCmdError,
>)
    ensures
        source_is_file ==> (r matches Ok(action) && action_for(action, workspace_dir@, rule@)),
        !source_is_file ==> (r matches Err(NsCmdError::Translation { path }) && path@
            == rule@.actual_path),
{
    if source_is_file {
        let link_path = workspace_dir.to_owned().concat("/").concat(rule.called_name.as_str());
        let progress_line = rule.actual_path.clone().concat(" -> ").concat(link_path.as_str());
        Ok(
            LinkAction {
                link_path,
                target: rule.actual_path.clone(),
                progress_line,
            },
        )
    } else {
        Err(NsCmdError::Translation { path: rule.actual_path.clone() })
    }
}

/// Decide the whole setup: given, for each rule, whether its source is an
/// existing regular file, either the full ordered list of installations or
/// the error for the first rule whose source is missing.
///
/// Setup succeeds exactly when every source is a regular file; on failure no
/// installation at all is handed back, so nothing is installed for the
/// failing rule or any other.
pub fn setup_plan(workspace_dir: &str, rules: &Vec<TranslationRule>, source_is_file: &Vec<
    bool,
>) -> (r: Result<Vec<LinkAction>, NsCmdError>)
    requires
        source_is_file@.len() == rules@.len(),
    ensures
        r is Ok <==> (forall|i: int| 0 <= i < rules@.len() ==> #[trigger] source_is_file@[i]),
        r matches Ok(actions) ==> actions@.len() == rules@.len() && (forall|i: int|
            0 <= i < rules@.len() ==> action_for(#[trigger] actions@[i], workspace_dir@, rules@[i]@)),
        r matches Err(e) ==> exists|i: int|
            0 <= i < rules@.len() && !(#[trigger] source_is_file@[i]) && (forall|j: int|
                0 <= j < i ==> source_is_file@[j]) && (e matches NsCmdError::Translation { path }
                && path@ == rules@[i]@.actual_path),
{
    let mut actions: Vec<LinkAction> = Vec::new();
    let mut i: usize = 0;
    while i < rules.len()
        invariant
            source_is_file@.len() == rules@.len(),
            i <= rules@.len(),
            actions@.len() == i,
            forall|j: int| 0 <= j < i ==> #[trigger] source_is_file@[j],
            forall|j: int|
                0 <= j < i ==> action_for(#[trigger] actions@[j], workspace_dir@, rules@[j]@),
        decreases rules@.len() - i,
    {
        match plan_link(workspace_dir, &rules[i], source_is_file[i]) {
            Ok(action) => {
                actions.push(action);
            },
            Err(e) => {
                return Err(e);
            },
        }
        i = i + 1;
    }
    Ok(actions)
}

/// The views of a sequence of rules.
pub open spec fn rule_views(rules: Seq<TranslationRule>) -> Seq<RuleView> {
    rules.map_values(|r: TranslationRule| r@)
}

/// The workspace contents after installing the rules' links in order: a map
/// from link name to link target, where a later rule overwrites an earlier
/// link of the same name.
pub open spec fn workspace_after(rules: Seq<RuleView>) -> Map<Seq<char>, Seq<char>>
    decreases rules.len(),
{
    if rules.len() == 0 {
        Map::empty()
    } else {
        workspace_after(rules.drop_last()).insert(
            rules.last().called_name,
            rules.last().actual_path,
        )
    }
}

/// The workspace holds exactly the rules' called names, and never more
/// entries than there are rules.
pub proof fn lemma_workspace_dom(rules: Seq<RuleView>)
    ensures
        workspace_after(rules).dom().finite(),
        workspace_after(rules).dom().len() <= rules.len(),
        forall|n: Seq<char>|
            #[trigger] workspace_after(rules).contains_key(n) <==> exists|i: int|
                0 <= i < rules.len() && #[trigger] rules[i].called_name == n,
    decreases rules.len(),
{
    if rules.len() == 0 {
    } else {
        let prefix = rules.drop_last();
        lemma_workspace_dom(prefix);
        assert forall|n: Seq<char>| #[trigger] workspace_after(rules).contains_key(n) implies exists|
            i: int,
        | 0 <= i < rules.len() && #[trigger] rules[i].called_name == n by {
            if n == rules.last().called_name {
                assert(rules[rules.len() - 1].called_name == n);
            } else {
                let i = choose|i: int| 0 <= i < prefix.len() && #[trigger] prefix[i].called_name == n;
                assert(rules[i].called_name == n);
            }
        }
        assert forall|n: Seq<char>| (exists|i: int|
            0 <= i < rules.len() && #[trigger] rules[i].called_name == n) implies #[trigger] workspace_after(
            rules,
        ).contains_key(n) by {
            let i = choose|i: int| 0 <= i < rules.len() && #[trigger] rules[i].called_name == n;
            if i < rules.len() - 1 {
                assert(prefix[i].called_name == n);
            }
        }
    }
}

/// Given rules with pairwise distinct called names, the workspace holds
/// exactly one entry per rule, each mapping the rule's called name to its
/// declared actual path.
pub proof fn lemma_distinct_names_workspace(rules: Seq<RuleView>)
    requires
        forall|i: int, j: int|
            0 <= i < j < rules.len() ==> rules[i].called_name != rules[j].called_name,
    ensures
        workspace_after(rules).dom().finite(),
        workspace_after(rules).dom().len() == rules.len(),
        forall|i: int|
            0 <= i < rules.len() ==> workspace_after(rules).contains_key(
                #[trigger] rules[i].called_name,
            ) && workspace_after(rules)[rules[i].called_name] == rules[i].actual_path,
    decreases rules.len(),
{
    if rules.len() == 0 {
    } else {
        let prefix = rules.drop_last();
        lemma_distinct_names_workspace(prefix);
        lemma_workspace_dom(prefix);
        assert(!workspace_after(prefix).contains_key(rules.last().called_name));
        assert(workspace_after(rules).dom() =~= workspace_after(prefix).dom().insert(
            rules.last().called_name,
        ));
        vstd::set::axiom_set_insert_len(workspace_after(prefix).dom(), rules.last().called_name);
        assert forall|i: int| 0 <= i < rules.len() implies workspace_after(rules).contains_key(
            #[trigger] rules[i].called_name,
        ) && workspace_after(rules)[rules[i].called_name] == rules[i].actual_path by {
            if i < rules.len() - 1 {
                assert(prefix[i].called_name == rules[i].called_name);
                assert(rules[i].called_name != rules.last().called_name);
            }
        }
    }
}

/// The last rule of a given called name decides the link's target: any
/// earlier rule of the same name is overwritten.
pub proof fn lemma_last_rule_wins(rules: Seq<RuleView>, i: int)
    requires
        0 <= i < rules.len(),
        forall|j: int| i < j < rules.len() ==> rules[j].called_name != rules[i].called_name,
    ensures
        workspace_after(rules).contains_key(rules[i].called_name),
        workspace_after(rules)[rules[i].called_name] == rules[i].actual_path,
    decreases rules.len(),
{
    if i == rules.len() - 1 {
    } else {
        let prefix = rules.drop_last();
        assert forall|j: int| i < j < prefix.len() implies prefix[j].called_name
            != prefix[i].called_name by {
            assert(prefix[j] == rules[j]);
        }
        lemma_last_rule_wins(prefix, i);
        assert(rules.last().called_name != rules[i].called_name);
    }
}

/// The links on disk after creating the actions' symlinks in order: a map
/// from link path to link target, where a later action overwrites an earlier
/// link at the same path.
pub open spec fn links_after(actions: Seq<LinkAction>) -> Map<Seq<char>, Seq<char>>
    decreases actions.len(),
{
    if actions.len() == 0 {
        Map::empty()
    } else {
        links_after(actions.drop_last()).insert(
            actions.last().link_path@,
            actions.last().target@,
        )
    }
}

/// Two entries of one directory with the same path are the same entry.
pub proof fn lemma_join_path_injective(dir: Seq<char>, a: Seq<char>, b: Seq<char>)
    requires
        join_path(dir, a) == join_path(dir, b),
    ensures
        a == b,
{
    let k = dir.len() + "/"@.len();
    assert(a =~= join_path(dir, a).subrange(k as int, join_path(dir, a).len() as int));
    assert(b =~= join_path(dir, b).subrange(k as int, join_path(dir, b).len() as int));
}

/// Installing the rules' planned links in order realizes the modelled
/// workspace: a link lives at `workspace_dir/name` exactly when some rule is
/// called `name`, and it points at the target the workspace model gives that
/// name.
pub proof fn lemma_plan_realizes_workspace(
    actions: Seq<LinkAction>,
    workspace_dir: Seq<char>,
    rules: Seq<RuleView>,
)
    requires
        actions.len() == rules.len(),
        forall|i: int| 0 <= i < rules.len() ==> action_for(#[trigger] actions[i], workspace_dir, rules[i]),
    ensures
        forall|n: Seq<char>|
            #[trigger] workspace_after(rules).contains_key(n) ==> links_after(
                actions,
            ).contains_key(join_path(workspace_dir, n)) && links_after(actions)[join_path(
                workspace_dir,
                n,
            )] == workspace_after(rules)[n],
        forall|p: Seq<char>|
            #[trigger] links_after(actions).contains_key(p) ==> exists|n: Seq<char>|
                workspace_after(rules).contains_key(n) && p == join_path(workspace_dir, n),
    decreases rules.len(),
{
    if rules.len() == 0 {
    } else {
        let rp = rules.drop_last();
        let ap = actions.drop_last();
        assert forall|i: int| 0 <= i < rp.len() implies action_for(
            #[trigger] ap[i],
            workspace_dir,
            rp[i],
        ) by {
            assert(ap[i] == actions[i]);
        }
        lemma_plan_realizes_workspace(ap, workspace_dir, rp);
        let last_name = rules.last().called_name;
        assert(actions.last().link_path@ == join_path(workspace_dir, last_name));
        assert forall|n: Seq<char>| #[trigger] workspace_after(rules).contains_key(
            n,
        ) implies links_after(actions).contains_key(join_path(workspace_dir, n)) && links_after(
            actions,
        )[join_path(workspace_dir, n)] == workspace_after(rules)[n] by {
            if n != last_name {
                if join_path(workspace_dir, n) == join_path(workspace_dir, last_name) {
                    lemma_join_path_injective(workspace_dir, n, last_name);
                }
                assert(workspace_after(rp).contains_key(n));
            }
        }
        assert forall|p: Seq<char>| #[trigger] links_after(actions).contains_key(p) implies exists|
            n: Seq<char>,
        | workspace_after(rules).contains_key(n) && p == join_path(workspace_dir, n) by {
            if p == join_path(workspace_dir, last_name) {
                assert(workspace_after(rules).contains_key(last_name));
            } else {
                assert(links_after(ap).contains_key(p));
                let n = choose|n: Seq<char>|
                    workspace_after(rp).contains_key(n) && p == join_path(workspace_dir, n);
                assert(workspace_after(rules).contains_key(n));
            }
        }
    }
}

/// The target a called name ends up with once all the rules' links are
/// installed, if any rule mentions it at all: the last such rule's actual
/// path.
pub fn effective_target(rules: &Vec<TranslationRule>, name: &String) -> (r: Option<String>)
    ensures
        r is Some <==> workspace_after(rule_views(rules@)).contains_key(name@),
        r matches Some(t) ==> workspace_after(rule_views(rules@))[name@] == t@,
{
    let ghost rv = rule_views(rules@);
    let mut i: usize = rules.len();
    while i > 0
        invariant
            rv == rule_views(rules@),
            i <= rules@.len(),
            forall|j: int| i <= j < rules@.len() ==> #[trigger] rv[j].called_name != name@,
        decreases i,
    {
        i = i - 1;
        if rules[i].called_name == *name {
            proof {
                assert(rv[i as int].called_name == name@);
                lemma_last_rule_wins(rv, i as int);
            }
            return Some(rules[i].actual_path.clone());
        }
    }
    proof {
        lemma_workspace_dom(rv);
    }
    None
}

} // verus!
