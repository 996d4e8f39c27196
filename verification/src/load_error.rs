//! Why content fails to load. Every failure names what is wrong and where.

use vstd::prelude::*;
use vstd::string::StringExecFns;

verus! {

/// A content failure.
#[derive(Debug, Clone)]
pub enum LoadError {
    /// A mod depends on one that was not found.
    MissingDependency { mod_id: String, dependency: String },
    /// These mods depend on each other in a circle.
    DependencyCycle(String),
    /// Two definitions share an id without an override.
    DuplicateId { kind: String, id: String, first: String, second: String },
    /// A definition names one that does not exist.
    DanglingRef { kind: String, referrer: String, target_kind: String, target: String },
    /// A system names a pricing strategy nobody registered.
    UnknownPricing { system: String, strategy: String },
    /// A script takes the name of a built-in strategy.
    ScriptShadowsBuiltin { mod_id: String, name: String },
}

/// What a [`LoadError`] says, with texts as character sequences.
#[verifier::ext_equal]
pub enum LoadErrorView {
    MissingDependency { mod_id: Seq<char>, dependency: Seq<char> },
    DependencyCycle(Seq<char>),
    DuplicateId { kind: Seq<char>, id: Seq<char>, first: Seq<char>, second: Seq<char> },
    DanglingRef {
        kind: Seq<char>,
        referrer: Seq<char>,
        target_kind: Seq<char>,
        target: Seq<char>,
    },
    UnknownPricing { system: Seq<char>, strategy: Seq<char> },
    ScriptShadowsBuiltin { mod_id: Seq<char>, name: Seq<char> },
}

impl View for LoadError {
    type V = LoadErrorView;

    open spec fn view(&self) -> LoadErrorView {
        match self {
            LoadError::MissingDependency { mod_id, dependency } => LoadErrorView::MissingDependency {
                mod_id: mod_id@,
                dependency: dependency@,
            },
            LoadError::DependencyCycle(ids) => LoadErrorView::DependencyCycle(ids@),
            LoadError::DuplicateId { kind, id, first, second } => LoadErrorView::DuplicateId {
                kind: kind@,
                id: id@,
                first: first@,
                second: second@,
            },
            LoadError::DanglingRef { kind, referrer, target_kind, target } =>
                LoadErrorView::DanglingRef {
                kind: kind@,
                referrer: referrer@,
                target_kind: target_kind@,
                target: target@,
            },
            LoadError::UnknownPricing { system, strategy } => LoadErrorView::UnknownPricing {
                system: system@,
                strategy: strategy@,
            },
            LoadError::ScriptShadowsBuiltin { mod_id, name } =>
                LoadErrorView::ScriptShadowsBuiltin { mod_id: mod_id@, name: name@ },
        }
    }
}

impl LoadErrorView {
    /// The error as a sentence.
    pub open spec fn message(self) -> Seq<char> {
        match self {
            LoadErrorView::MissingDependency { mod_id, dependency } => "mod '"@ + mod_id
                + "' depends on '"@ + dependency + "', which was not found"@,
            LoadErrorView::DependencyCycle(ids) => "dependency cycle among mods: ["@ + ids + "]"@,
            LoadErrorView::DuplicateId { kind, id, first, second } => "duplicate "@ + kind
                + " id '"@ + id + "': defined by both '"@ + first + "' and '"@ + second
                + "' (the overriding mod must list it in `overrides`)"@,
            LoadErrorView::DanglingRef { kind, referrer, target_kind, target } => kind + " '"@
                + referrer + "' references unknown "@ + target_kind + " '"@ + target + "'"@,
            LoadErrorView::UnknownPricing { system, strategy } => "system '"@ + system
                + "' uses unknown pricing strategy '"@ + strategy + "'"@,
            LoadErrorView::ScriptShadowsBuiltin { mod_id, name } => "script '"@ + name
                + "' in mod '"@ + mod_id
                + "' shadows a built-in strategy of the same name; rename the script"@,
        }
    }
}

impl LoadError {
    /// The error as a sentence.
    pub fn message(&self) -> (s: String)
        ensures
            s@ == self@.message(),
    {
        let mut s = String::new();
        match self {
            LoadError::MissingDependency { mod_id, dependency } => {
                s.append("mod '");
                s.append(mod_id.as_str());
                s.append("' depends on '");
                s.append(dependency.as_str());
                s.append("', which was not found");
            },
            LoadError::DependencyCycle(ids) => {
                s.append("dependency cycle among mods: [");
                s.append(ids.as_str());
                s.append("]");
            },
            LoadError::DuplicateId { kind, id, first, second } => {
                s.append("duplicate ");
                s.append(kind.as_str());
                s.append(" id '");
                s.append(id.as_str());
                s.append("': defined by both '");
                s.append(first.as_str());
                s.append("' and '");
                s.append(second.as_str());
                s.append("' (the overriding mod must list it in `overrides`)");
            },
            LoadError::DanglingRef { kind, referrer, target_kind, target } => {
                s.append(kind.as_str());
                s.append(" '");
                s.append(referrer.as_str());
                s.append("' references unknown ");
                s.append(target_kind.as_str());
                s.append(" '");
                s.append(target.as_str());
                s.append("'");
            },
            LoadError::UnknownPricing { system, strategy } => {
                s.append("system '");
                s.append(system.as_str());
                s.append("' uses unknown pricing strategy '");
                s.append(strategy.as_str());
                s.append("'");
            },
            LoadError::ScriptShadowsBuiltin { mod_id, name } => {
                s.append("script '");
                s.append(name.as_str());
                s.append("' in mod '");
                s.append(mod_id.as_str());
                s.append("' shadows a built-in strategy of the same name; rename the script");
            },
        }
        assert(s@ =~= self@.message());
        s
    }
}

} // verus!
