//! Permission resolution over the role table. A role's own entries are
//! scanned in order: an exact match grants, a `-`-prefixed match denies, and
//! both short-circuit. An undecided role defers to its parent; at the root of
//! a chain, only capabilities under `response.` are granted by default.

use vstd::prelude::*;
use vstd::string::StringExecFns;

use crate::config::{chain_ok, Config, ConfigView, Role, RoleView};
use crate::table::{assoc_get, lookup};
use crate::text::{chars_have_prefix, has_prefix, str_to_chars};

verus! {

/// What one role's own permission list says about a capability.
pub enum PermScan {
    Granted,
    Denied,
    Unset,
}

/// Scan of a permission list: the first entry equal to `perm` grants, the
/// first equal to `-perm` denies, whichever comes sooner.
pub open spec fn scan_perms(perms: Seq<Seq<char>>, perm: Seq<char>) -> PermScan
    decreases perms.len(),
{
    if perms.len() == 0 {
        PermScan::Unset
    } else if perms[0] == perm {
        PermScan::Granted
    } else if perms[0] == seq!['-'] + perm {
        PermScan::Denied
    } else {
        scan_perms(perms.drop_first(), perm)
    }
}

/// Permission resolution along the inheritance chain, with bounded depth.
/// At the root of a chain only capabilities under `response.` are granted,
/// and only while the configuration keeps canned responses opt-out. Under
/// `chain_ok` the fuel is never exhausted, so the `false` the spec yields at
/// zero fuel is never what a verified caller observes.
pub open spec fn has_perm(c: ConfigView, perm: Seq<char>, role: RoleView, fuel: nat) -> bool
    decreases fuel,
{
    match scan_perms(role.perms, perm) {
        PermScan::Granted => true,
        PermScan::Denied => false,
        PermScan::Unset => {
            if role.inherit.len() == 0 {
                c.allow_responses_by_default && has_prefix(perm, "response."@)
            } else if fuel == 0 {
                false
            } else {
                match lookup(c.roles, role.inherit) {
                    Some(parent) => has_perm(c, perm, parent, (fuel - 1) as nat),
                    None => false,
                }
            }
        },
    }
}

proof fn lemma_scan_settled(perms: Seq<Seq<char>>, perm: Seq<char>)
    requires
        perms.contains(perm) || perms.contains(seq!['-'] + perm),
    ensures
        perms.contains(perm) && !perms.contains(seq!['-'] + perm) ==> scan_perms(perms, perm)
            is Granted,
        perms.contains(seq!['-'] + perm) && !perms.contains(perm) ==> scan_perms(perms, perm)
            is Denied,
    decreases perms.len(),
{
    if perms.len() > 0 && perms[0] != perm && perms[0] != seq!['-'] + perm {
        let rest = perms.drop_first();
        assert forall|x: Seq<char>| rest.contains(x) implies perms.contains(x) by {
            let j = choose|j: int| 0 <= j < rest.len() && rest[j] == x;
            assert(perms[j + 1] == x);
        }
        if perms.contains(perm) {
            let i = choose|i: int| 0 <= i < perms.len() && perms[i] == perm;
            assert(rest[i - 1] == perm);
        }
        if perms.contains(seq!['-'] + perm) {
            let i = choose|i: int| 0 <= i < perms.len() && perms[i] == seq!['-'] + perm;
            assert(rest[i - 1] == seq!['-'] + perm);
        }
        lemma_scan_settled(rest, perm);
    }
}

/// A capability granted in a role's own list is resolved as granted, whatever
/// the role inherits and however deep the chain — provided the same list does
/// not also deny it, since the earlier of the two entries would win.
pub proof fn lemma_own_grant_wins(c: ConfigView, perm: Seq<char>, role: RoleView, fuel: nat)
    requires
        role.perms.contains(perm),
        !role.perms.contains(seq!['-'] + perm),
    ensures
        has_perm(c, perm, role, fuel),
{
    lemma_scan_settled(role.perms, perm);
}

/// A capability denied in a role's own list is resolved as denied, even when
/// an ancestor grants it — provided the same list does not also grant it,
/// since the earlier of the two entries would win.
pub proof fn lemma_own_denial_wins(c: ConfigView, perm: Seq<char>, role: RoleView, fuel: nat)
    requires
        role.perms.contains(seq!['-'] + perm),
        !role.perms.contains(perm),
    ensures
        !has_perm(c, perm, role, fuel),
{
    lemma_scan_settled(role.perms, perm);
}

/// Inheritance is transitive: when a role and its parent leave a capability
/// undecided, a grant on the grandparent is visible from the role.
pub proof fn lemma_inherit_transitive(
    c: ConfigView,
    perm: Seq<char>,
    child: RoleView,
    parent: RoleView,
    grandparent: RoleView,
    fuel: nat,
)
    requires
        fuel >= 2,
        scan_perms(child.perms, perm) is Unset,
        child.inherit.len() > 0,
        lookup(c.roles, child.inherit) == Some(parent),
        scan_perms(parent.perms, perm) is Unset,
        parent.inherit.len() > 0,
        lookup(c.roles, parent.inherit) == Some(grandparent),
        scan_perms(grandparent.perms, perm) is Granted,
    ensures
        has_perm(c, perm, child, fuel),
{
    assert(has_perm(c, perm, grandparent, (fuel - 2) as nat));
    assert(has_perm(c, perm, parent, (fuel - 1) as nat));
}

pub proof fn lemma_scan_skip(perms: Seq<Seq<char>>, perm: Seq<char>, i: int)
    requires
        0 <= i <= perms.len(),
        forall|j: int|
            0 <= j < i ==> #[trigger] perms[j] != perm && perms[j] != seq!['-'] + perm,
    ensures
        scan_perms(perms, perm) == scan_perms(perms.skip(i), perm),
    decreases i,
{
    if i == 0 {
        assert(perms.skip(0) =~= perms);
    } else {
        assert(perms[0] != perm && perms[0] != seq!['-'] + perm);
        assert forall|j: int|
            0 <= j < i - 1 implies #[trigger] perms.drop_first()[j] != perm
            && perms.drop_first()[j] != seq!['-'] + perm by {
            assert(perms.drop_first()[j] == perms[j + 1]);
        }
        lemma_scan_skip(perms.drop_first(), perm, i - 1);
        assert(perms.drop_first().skip(i - 1) =~= perms.skip(i));
    }
}

/// One role's own permission list, scanned in order.
fn scan_role(role: &Role, perm: &String, neg: &String) -> (r: PermScan)
    requires
        neg@ == seq!['-'] + perm@,
    ensures
        r == scan_perms(role@.perms, perm@),
{
    let ghost pv = role@.perms;
    let mut i: usize = 0;
    while i < role.perms.len()
        invariant
            neg@ == seq!['-'] + perm@,
            pv == role@.perms,
            pv.len() == role.perms.len(),
            i <= role.perms.len(),
            forall|j: int| 0 <= j < i ==> #[trigger] pv[j] != perm@ && pv[j] != seq!['-'] + perm@,
        decreases role.perms.len() - i,
    {
        proof {
            assert(pv[i as int] == role.perms@[i as int]@);
        }
        if role.perms[i] == *perm {
            proof {
                lemma_scan_skip(pv, perm@, i as int);
                assert(pv.skip(i as int)[0] == pv[i as int]);
            }
            return PermScan::Granted;
        }
        if role.perms[i] == *neg {
            proof {
                lemma_scan_skip(pv, perm@, i as int);
                assert(pv.skip(i as int)[0] == pv[i as int]);
            }
            return PermScan::Denied;
        }
        i += 1;
    }
    proof {
        lemma_scan_skip(pv, perm@, pv.len() as int);
        assert(pv.skip(pv.len() as int) =~= Seq::<Seq<char>>::empty());
    }
    PermScan::Unset
}

/// Resolves `perm` for `role`: the role's own list first, then the
/// inheritance chain, then the `response.` default at the root.
pub fn check_permission(config: &Config, perm: String, role: &Role) -> (b: bool)
    requires
        chain_ok(config@.roles, role@, config@.roles.len() as nat),
    ensures
        b == has_perm(config@, perm@, role@, config@.roles.len() as nat),
{
    let mut neg = String::new();
    neg.append("-");
    neg.append(perm.as_str());
    proof {
        reveal_strlit("-");
        assert(neg@ =~= seq!['-'] + perm@);
    }
    let resp_prefix = str_to_chars("response.");
    let perm_chars = str_to_chars(perm.as_str());
    let ghost cv = config@;
    let ghost rolesv = config@.roles;
    let ghost total = config@.roles.len() as nat;
    let mut cur: &Role = role;
    let ghost mut fuel = total;
    loop
        invariant
            cv == config@,
            rolesv == config@.roles,
            total == rolesv.len(),
            neg@ == seq!['-'] + perm@,
            resp_prefix@ == "response."@,
            perm_chars@ == perm@,
            fuel <= total,
            chain_ok(rolesv, cur@, fuel),
            has_perm(cv, perm@, cur@, fuel) == has_perm(cv, perm@, role@, total),
        decreases fuel,
    {
        match scan_role(cur, &perm, &neg) {
            PermScan::Granted => {
                return true;
            },
            PermScan::Denied => {
                return false;
            },
            PermScan::Unset => {
                if cur.inherit.as_str().is_empty() {
                    return config.allow_responses_by_default && chars_have_prefix(
                        &perm_chars,
                        resp_prefix.as_slice(),
                    );
                }
                match assoc_get(&config.roles, &cur.inherit) {
                    Some(parent) => {
                        proof {
                            fuel = (fuel - 1) as nat;
                        }
                        cur = parent;
                    },
                    None => {
                        proof {
                            assert(false);
                        }
                        return false;
                    },
                }
            },
        }
    }
}

} // verus!
