//! Rule sets, the configuration that maps file names to them, and their
//! compilation into matchers.

use vstd::prelude::*;
use crate::pattern::{compiles, group_count, Pattern};

verus! {

/// An extraction rule as written in the configuration.
#[derive(Clone, Debug)]
pub struct RuleSet {
    /// Expression whose first capture group is the token.
    pub pattern: String,
    /// Expressions that disqualify a token when any of them matches it.
    pub unwanted_strings: Vec<String>,
    /// Smallest accepted token length, in bytes.
    pub min_length: usize,
}

/// The mathematical content of a rule set.
pub struct RulesModel {
    pub pattern: Seq<char>,
    pub unwanted: Seq<Seq<char>>,
    pub min_length: nat,
}

impl View for RuleSet {
    type V = RulesModel;

    open spec fn view(&self) -> RulesModel {
        RulesModel {
            pattern: self.pattern@,
            unwanted: self.unwanted_strings@.map_values(|s: String| s@),
            min_length: self.min_length as nat,
        }
    }
}

/// The default rule set and the per-file-name overrides.
#[derive(Clone, Debug)]
pub struct Configuration {
    pub default: RuleSet,
    /// Overrides keyed by exact base file name; the first entry for a name wins.
    pub files: Vec<(String, RuleSet)>,
}

/// A configuration error found before any file is read.
#[derive(Clone, Debug, PartialEq, Eq)]
pub enum ConfigError {
    /// The expression does not compile.
    InvalidPattern(String),
    /// The extraction expression has no capture group.
    NoCaptureGroup(String),
}

impl ConfigError {
    /// `(true, p)` for a missing capture group in `p`, `(false, p)` for an
    /// expression `p` that does not compile.
    pub open spec fn view(&self) -> (bool, Seq<char>) {
        match self {
            ConfigError::InvalidPattern(p) => (false, p@),
            ConfigError::NoCaptureGroup(p) => (true, p@),
        }
    }

}

/// The first unwanted expression, from index `i` on, that does not compile.
pub open spec fn first_invalid_from(u: Seq<Seq<char>>, i: int) -> Option<Seq<char>>
    decreases u.len() - i,
{
    if i < 0 || i >= u.len() {
        None
    } else if !compiles(u[i]) {
        Some(u[i])
    } else {
        first_invalid_from(u, i + 1)
    }
}

/// The error that compiling a rule set reports, if any: the extraction
/// expression is checked first, then the unwanted ones in order.
pub open spec fn rules_fault(m: RulesModel) -> Option<(bool, Seq<char>)> {
    if !compiles(m.pattern) {
        Some((false, m.pattern))
    } else if group_count(m.pattern) < 2 {
        Some((true, m.pattern))
    } else {
        match first_invalid_from(m.unwanted, 0) {
            Some(p) => Some((false, p)),
            None => None,
        }
    }
}

/// A rule set whose expressions are compiled.
pub struct CompiledRules {
    pattern: Pattern,
    unwanted: Vec<Pattern>,
    min_length: usize,
}

impl View for CompiledRules {
    type V = RulesModel;

    closed spec fn view(&self) -> RulesModel {
        RulesModel {
            pattern: self.pattern@,
            unwanted: self.unwanted@.map_values(|p: Pattern| p@),
            min_length: self.min_length as nat,
        }
    }
}

impl CompiledRules {
    /// Every expression compiles and the extraction one has a group.
    pub closed spec fn wf(&self) -> bool {
        rules_fault(self@) is None
    }

    /// Compiles every expression of `rules`.
    pub fn compile(rules: &RuleSet) -> (r: Result<CompiledRules, ConfigError>)
        ensures
            match r {
                Ok(c) => rules_fault(rules@) is None && c.wf() && c@ == rules@,
                Err(e) => rules_fault(rules@) == Some(e.view()),
            },
    {
        let pattern = match Pattern::new(rules.pattern.as_str()) {
            Some(p) => p,
            None => {
                return Err(ConfigError::InvalidPattern(rules.pattern.clone()));
            },
        };
        if pattern.group_count() < 2 {
            return Err(ConfigError::NoCaptureGroup(rules.pattern.clone()));
        }
        let ghost u = rules@.unwanted;
        let mut unwanted: Vec<Pattern> = Vec::new();
        let mut i: usize = 0;
        while i < rules.unwanted_strings.len()
            invariant
                i <= rules.unwanted_strings.len(),
                u == rules@.unwanted,
                pattern@ == rules@.pattern,
                compiles(rules@.pattern),
                group_count(rules@.pattern) >= 2,
                unwanted@.len() == i,
                forall|j: int| 0 <= j < i ==> #[trigger] unwanted@[j]@ == u[j],
                first_invalid_from(u, 0) == first_invalid_from(u, i as int),
            decreases rules.unwanted_strings.len() - i,
        {
            match Pattern::new(rules.unwanted_strings[i].as_str()) {
                Some(p) => {
                    assert(u[i as int] == rules.unwanted_strings@[i as int]@);
                    unwanted.push(p);
                },
                None => {
                    assert(u[i as int] == rules.unwanted_strings@[i as int]@);
                    return Err(ConfigError::InvalidPattern(rules.unwanted_strings[i].clone()));
                },
            }
            i = i + 1;
        }
        let c = CompiledRules { pattern, unwanted, min_length: rules.min_length };
        assert(c@.unwanted =~= u);
        Ok(c)
    }

    /// The smallest accepted token length.
    pub fn min_length(&self) -> (r: usize)
        ensures
            r as nat == self@.min_length,
    {
        self.min_length
    }

    /// The extraction expression.
    pub fn pattern(&self) -> (r: &Pattern)
        ensures
            r@ == self@.pattern,
    {
        &self.pattern
    }

    /// The unwanted expressions, in order.
    pub fn unwanted(&self) -> (r: &Vec<Pattern>)
        ensures
            r@.map_values(|p: Pattern| p@) == self@.unwanted,
    {
        &self.unwanted
    }
}

/// The mathematical content of a configuration.
pub struct ConfigModel {
    pub default: RulesModel,
    pub files: Seq<(Seq<char>, RulesModel)>,
}

impl View for Configuration {
    type V = ConfigModel;

    open spec fn view(&self) -> ConfigModel {
        ConfigModel {
            default: self.default@,
            files: self.files@.map_values(|e: (String, RuleSet)| (e.0@, e.1@)),
        }
    }
}

/// The rule set that applies to a file named `name`, looking at overrides
/// from index `i` on: the first override for that exact name, else the
/// default.
pub open spec fn resolved_from(m: ConfigModel, name: Seq<char>, i: int) -> RulesModel
    decreases m.files.len() - i,
{
    if i < 0 || i >= m.files.len() {
        m.default
    } else if m.files[i].0 == name {
        m.files[i].1
    } else {
        resolved_from(m, name, i + 1)
    }
}

/// The rule set that applies to a file named `name`.
pub open spec fn resolved(m: ConfigModel, name: Seq<char>) -> RulesModel {
    resolved_from(m, name, 0)
}

/// The first fault among the overrides from index `i` on.
pub open spec fn overrides_fault_from(f: Seq<(Seq<char>, RulesModel)>, i: int) -> Option<(bool, Seq<char>)>
    decreases f.len() - i,
{
    if i < 0 || i >= f.len() {
        None
    } else if rules_fault(f[i].1) is Some {
        rules_fault(f[i].1)
    } else {
        overrides_fault_from(f, i + 1)
    }
}

/// The error that compiling a configuration reports, if any: the default
/// rule set first, then the overrides in order.
pub open spec fn config_fault(m: ConfigModel) -> Option<(bool, Seq<char>)> {
    if rules_fault(m.default) is Some {
        rules_fault(m.default)
    } else {
        overrides_fault_from(m.files, 0)
    }
}

impl Configuration {
    /// The rule set for the file with base name `name`: its override when
    /// there is one, else the default.
    pub fn resolve(&self, name: &str) -> (r: &RuleSet)
        ensures
            r@ == resolved(self@, name@),
    {
        let key = name.to_owned();
        let mut i: usize = 0;
        while i < self.files.len()
            invariant
                i <= self.files.len(),
                key@ == name@,
                resolved(self@, name@) == resolved_from(self@, name@, i as int),
            decreases self.files.len() - i,
        {
            if self.files[i].0 == key {
                return &self.files[i].1;
            }
            i = i + 1;
        }
        &self.default
    }

    /// Compiles every rule set; the first fault found is the error.
    pub fn compile(&self) -> (r: Result<CompiledConfig, ConfigError>)
        ensures
            match r {
                Ok(c) => config_fault(self@) is None && c.wf() && c@ == self@,
                Err(e) => config_fault(self@) == Some(e.view()),
            },
    {
        let default = match CompiledRules::compile(&self.default) {
            Ok(c) => c,
            Err(e) => {
                return Err(e);
            },
        };
        let ghost f = self@.files;
        let mut files: Vec<(String, CompiledRules)> = Vec::new();
        let mut i: usize = 0;
        while i < self.files.len()
            invariant
                i <= self.files.len(),
                f == self@.files,
                rules_fault(self@.default) is None,
                default.wf(),
                default@ == self@.default,
                files@.len() == i,
                forall|j: int| 0 <= j < i ==> (#[trigger] files@[j]).0@ == f[j].0 && files@[j].1@ == f[j].1 && files@[j].1.wf(),
                overrides_fault_from(f, 0) == overrides_fault_from(f, i as int),
            decreases self.files.len() - i,
        {
            assert(f[i as int] == (self.files@[i as int].0@, self.files@[i as int].1@));
            match CompiledRules::compile(&self.files[i].1) {
                Ok(c) => {
                    files.push((self.files[i].0.clone(), c));
                },
                Err(e) => {
                    return Err(e);
                },
            }
            i = i + 1;
        }
        let c = CompiledConfig { default, files };
        assert(c@.files =~= f);
        Ok(c)
    }
}

/// A configuration whose expressions are all compiled.
pub struct CompiledConfig {
    default: CompiledRules,
    files: Vec<(String, CompiledRules)>,
}

impl View for CompiledConfig {
    type V = ConfigModel;

    closed spec fn view(&self) -> ConfigModel {
        ConfigModel {
            default: self.default@,
            files: self.files@.map_values(|e: (String, CompiledRules)| (e.0@, e.1@)),
        }
    }
}

impl CompiledConfig {
    /// Every rule set is compiled and well formed.
    pub closed spec fn wf(&self) -> bool {
        &&& self.default.wf()
        &&& forall|j: int| 0 <= j < self.files@.len() ==> (#[trigger] self.files@[j]).1.wf()
    }

    /// The compiled rule set for the file with base name `name`: its
    /// override when there is one, else the default.
    pub fn resolve(&self, name: &str) -> (r: &CompiledRules)
        requires
            self.wf(),
        ensures
            r@ == resolved(self@, name@),
            r.wf(),
    {
        let key = name.to_owned();
        let mut i: usize = 0;
        while i < self.files.len()
            invariant
                i <= self.files.len(),
                key@ == name@,
                self.wf(),
                resolved(self@, name@) == resolved_from(self@, name@, i as int),
            decreases self.files.len() - i,
        {
            if self.files[i].0 == key {
                return &self.files[i].1;
            }
            i = i + 1;
        }
        &self.default
    }
}

} // verus!
