//! Dependency-check reporting: the status record built for each external
//! requirement once its presence has been probed.
use vstd::prelude::*;
use vstd::string::StringExecFns;

verus! {

/// Whether one external requirement is present, with its user-visible
/// message.
pub struct RequirementStatus {
    /// The requirement's display name.
    pub name: String,
    /// Whether it was found.
    pub installed: bool,
    /// The message shown for it.
    pub message: String,
}

/// Builds the status record for one requirement: the message names the
/// requirement and states whether it is installed or still needed.
pub fn requirement_status(name: &str, installed: bool) -> (r: RequirementStatus)
    ensures
        r.name@ == name@,
        r.installed == installed,
        installed ==> r.message@ == name@ + " is installed"@,
        !installed ==> r.message@ == name@ + " needs to be installed"@,
{
    let mut message = String::from_str(name);
    if installed {
        message.append(" is installed");
    } else {
        message.append(" needs to be installed");
    }
    RequirementStatus { name: String::from_str(name), installed, message }
}

/// Builds the full report, one status per probed requirement, in order.
pub fn requirement_report(checks: Vec<(String, bool)>) -> (r: Vec<RequirementStatus>)
    ensures
        r@.len() == checks@.len(),
        forall|i: int| 0 <= i < r@.len() ==> {
            &&& (#[trigger] r@[i]).name@ == checks@[i].0@
            &&& r@[i].installed == checks@[i].1
            &&& checks@[i].1 ==> r@[i].message@ == checks@[i].0@ + " is installed"@
            &&& !checks@[i].1 ==> r@[i].message@ == checks@[i].0@ + " needs to be installed"@
        },
{
    let ghost all = checks@;
    let mut rest = checks;
    let mut r: Vec<RequirementStatus> = Vec::new();
    proof {
        assert(all.skip(0) =~= all);
    }
    while rest.len() > 0
        invariant
            r@.len() + rest@.len() == all.len(),
            rest@ == all.skip(r@.len() as int),
            forall|i: int| 0 <= i < r@.len() ==> {
                &&& (#[trigger] r@[i]).name@ == all[i].0@
                &&& r@[i].installed == all[i].1
                &&& all[i].1 ==> r@[i].message@ == all[i].0@ + " is installed"@
                &&& !all[i].1 ==> r@[i].message@ == all[i].0@ + " needs to be installed"@
            },
        decreases rest@.len(),
    {
        let ghost rest0 = rest@;
        let (name, installed) = rest.remove(0);
        proof {
            assert(rest0[0] == all[r@.len() as int]);
            assert(rest@ =~= rest0.drop_first());
            assert(all.skip(r@.len() as int + 1) =~= rest0.drop_first());
        }
        let status = requirement_status(name.as_str(), installed);
        r.push(status);
    }
    r
}

} // verus!
