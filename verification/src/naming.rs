//! The names combats are listed under.
use vstd::prelude::*;
use crate::text::{views, join, trim, trim_str, chars_of, extend, extend_str, string_of, contains_ignoring_case, contains_ignoring_case_exec, join_strings};
use crate::detection::{Difficulty, difficulty_label};

verus! {

/// `base` with the tier label in square brackets, unless there is no label or
/// the name already mentions it (ignoring case).
pub open spec fn with_difficulty(base: Seq<char>, difficulty: Option<Difficulty>) -> Seq<char> {
    match difficulty {
        Some(d) => match difficulty_label(d) {
            Some(label) => if !contains_ignoring_case(base, label) {
                base + " ["@ + label + "]"@
            } else {
                base
            },
            None => base,
        },
        None => base,
    }
}

/// `base` with the environment in parentheses, unless there is none, it is
/// blank, or the name already mentions it (ignoring case).
pub open spec fn with_combat_type(base: Seq<char>, combat_type: Option<Seq<char>>) -> Seq<char> {
    match combat_type {
        Some(t) => if trim(t).len() > 0 && !contains_ignoring_case(base, trim(t)) {
            base + " ("@ + trim(t) + ")"@
        } else {
            base
        },
        None => base,
    }
}

/// Appends the detected difficulty in square brackets (`[Elite]`), unless the
/// base name already mentions that tier; `Any` and no difficulty leave it.
pub fn append_detected_difficulty(base: String, difficulty: Option<Difficulty>) -> (r: String)
    ensures
        r@ == with_difficulty(base@, difficulty),
{
    let label = match difficulty {
        Some(d) => d.label(),
        None => None,
    };
    match label {
        Some(label) => {
            if !contains_ignoring_case_exec(base.as_str(), label) {
                let mut out = chars_of(base.as_str());
                out.push(' ');
                out.push('[');
                extend_str(&mut out, label);
                out.push(']');
                proof {
                    reveal_strlit(" [");
                    reveal_strlit("]");
                    assert(out@ =~= base@ + " ["@ + label@ + "]"@);
                }
                string_of(&out)
            } else {
                base
            }
        },
        None => base,
    }
}

/// Appends the map's environment in parentheses (`(Ground)`), unless it is
/// missing or blank or the base name already mentions it.
pub fn append_detected_combat_type(base: String, combat_type: Option<&str>) -> (r: String)
    ensures
        r@ == with_combat_type(base@, crate::entity::opt_view(combat_type)),
{
    match combat_type {
        Some(t) => {
            let label = trim_str(t);
            let label_s = string_of(&label);
            if label.len() > 0 && !contains_ignoring_case_exec(base.as_str(), label_s.as_str()) {
                let mut out = chars_of(base.as_str());
                out.push(' ');
                out.push('(');
                extend(&mut out, &label);
                out.push(')');
                proof {
                    reveal_strlit(" (");
                    reveal_strlit(")");
                    assert(out@ =~= base@ + " ("@ + trim(t@) + ")"@);
                }
                string_of(&out)
            } else {
                base
            }
        },
        None => base,
    }
}

/// A user naming rule that matched a combat, with the names of its extra-info
/// rules that matched too.
#[derive(Debug, Clone)]
pub struct CombatName {
    pub name: String,
    pub additional_infos: Vec<String>,
}

/// How a [`CombatName`] is shown: the name, then the extra infos in
/// parentheses, comma-separated, when there are any.
pub open spec fn combat_name_text(name: Seq<char>, infos: Seq<Seq<char>>) -> Seq<char> {
    if infos.len() == 0 {
        name
    } else {
        name + " ("@ + join(infos, ", "@) + ")"@
    }
}

impl CombatName {
    /// The combat name of a matching rule called `name` whose matching extra
    /// infos are `additional_infos`.
    pub fn new(name: String, additional_infos: Vec<String>) -> (r: CombatName)
        ensures
            r.name@ == name@,
            views(r.additional_infos@) == views(additional_infos@),
    {
        CombatName { name, additional_infos }
    }

    /// The text the combat name is shown as.
    pub fn format(&self) -> (r: String)
        ensures
            r@ == combat_name_text(self.name@, views(self.additional_infos@)),
    {
        if self.additional_infos.len() == 0 {
            return self.name.clone();
        }
        let infos = join_strings(&self.additional_infos, ", ");
        let mut out = chars_of(self.name.as_str());
        out.push(' ');
        out.push('(');
        extend_str(&mut out, infos.as_str());
        out.push(')');
        proof {
            reveal_strlit(" (");
            reveal_strlit(")");
            assert(out@ =~= self.name@ + " ("@ + join(views(self.additional_infos@), ", "@)
                + ")"@);
        }
        string_of(&out)
    }
}

} // verus!
