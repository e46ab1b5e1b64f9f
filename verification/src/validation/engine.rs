use vstd::prelude::*;
use crate::json::{JsonValue, json_get};
use crate::text::{decimal, push_str, str_eq, strings_view, u64_to_string};
use super::{FileFacts, ValidationCheck, ValidationReport, opt_view, plain_check, message};
use super::rules::{
    ooxml_valid, styles_exist, brand_colors_match, cross_references_valid, no_empty_placeholders,
    max_pages, ooxml_outcome, styles_outcome, brand_outcome, cross_refs_outcome, max_pages_outcome,
    found_placeholders, placeholder_pattern, placeholder_fix_args, not_found_text, counts_fit, marks_fit,
    opt_json,
};
use crate::patterns::regex_error;

verus! {

/// The names of the built-in rules, in the order the engine registers them.
pub open spec fn builtin_rules() -> Seq<Seq<char>> {
    seq![
        "no_empty_placeholders"@,
        "brand_colors_match"@,
        "max_pages"@,
        "styles_exist"@,
        "cross_references_valid"@,
        "ooxml_valid"@,
    ]
}

/// The rules an engine knows, by name, and the names it is limited to.
pub struct RuleRegistry {
    pub rules: Vec<String>,
    pub active_filter: Option<Vec<String>>,
}

pub open spec fn known(names: Seq<Seq<char>>, n: Seq<char>) -> bool {
    names.contains(n)
}

/// The known names among `names`, in their order, repeats kept.
pub open spec fn known_among(rules: Seq<Seq<char>>, names: Seq<Seq<char>>) -> Seq<Seq<char>>
    decreases names.len(),
{
    if names.len() == 0 {
        Seq::empty()
    } else {
        known_among(rules, names.drop_last()) + if rules.contains(names.last()) {
            seq![names.last()]
        } else {
            Seq::<Seq<char>>::empty()
        }
    }
}

impl RuleRegistry {
    pub fn new() -> (r: Self)
        ensures
            r.rules@.len() == 0,
            r.active_filter is None,
    {
        RuleRegistry { rules: Vec::new(), active_filter: None }
    }

    /// Adds a rule name; a name already known stays where it is.
    pub fn register(&mut self, name: &str)
        ensures
            strings_view(final(self).rules@) == if strings_view(old(self).rules@).contains(name@) {
                strings_view(old(self).rules@)
            } else {
                strings_view(old(self).rules@).push(name@)
            },
            final(self).active_filter == old(self).active_filter,
    {
        if self.get(name).is_none() {
            self.rules.push(name.to_owned());
            proof {
                assert(strings_view(final(self).rules@) =~= strings_view(old(self).rules@).push(name@));
            }
        }
    }

    pub fn set_active_filter(&mut self, filter: Option<Vec<String>>)
        ensures
            final(self).active_filter == filter,
            final(self).rules == old(self).rules,
    {
        self.active_filter = filter;
    }

    /// The rule of that name, if known.
    pub fn get(&self, name: &str) -> (r: Option<String>)
        ensures
            r is Some <==> strings_view(self.rules@).contains(name@),
            r matches Some(s) ==> s@ == name@,
    {
        let mut i: usize = 0;
        while i < self.rules.len()
            invariant
                i <= self.rules@.len(),
                forall|j: int| 0 <= j < i ==> self.rules@[j]@ != name@,
            decreases self.rules@.len() - i,
        {
            if str_eq(self.rules[i].as_str(), name) {
                proof {
                    assert(strings_view(self.rules@)[i as int] == name@);
                }
                return Some(name.to_owned());
            }
            i = i + 1;
        }
        proof {
            if strings_view(self.rules@).contains(name@) {
                let j = choose|j: int| 0 <= j < strings_view(self.rules@).len() && strings_view(self.rules@)[j] == name@;
                assert(self.rules@[j]@ == name@);
            }
        }
        None
    }

    /// All known rules.
    pub fn all(&self) -> (r: Vec<String>)
        ensures
            strings_view(r@) == strings_view(self.rules@),
    {
        let mut out: Vec<String> = Vec::new();
        let mut i: usize = 0;
        while i < self.rules.len()
            invariant
                i <= self.rules@.len(),
                strings_view(out@) == strings_view(self.rules@).take(i as int),
            decreases self.rules@.len() - i,
        {
            let s = self.rules[i].clone();
            proof {
                assert(s@ == self.rules@[i as int]@);
            }
            let ghost before = out@;
            out.push(s);
            proof {
                assert(strings_view(out@) =~= strings_view(before).push(s@));
                assert(strings_view(out@) =~= strings_view(self.rules@).take(i + 1));
            }
            i = i + 1;
        }
        proof {
            assert(strings_view(self.rules@).take(self.rules@.len() as int) =~= strings_view(self.rules@));
        }
        out
    }

    /// The rules to run: the requested names, or else the active filter,
    /// that are known, in that order; every known rule where neither is set.
    pub fn resolve(&self, check_names: Option<&[String]>) -> (r: Vec<String>)
        ensures
            strings_view(r@) == match check_names {
                Some(ns) => known_among(strings_view(self.rules@), strings_view(ns@)),
                None => match self.active_filter {
                    Some(f) => known_among(strings_view(self.rules@), strings_view(f@)),
                    None => strings_view(self.rules@),
                },
            },
    {
        let names: &[String] = match check_names {
            Some(ns) => ns,
            None => match &self.active_filter {
                Some(f) => f.as_slice(),
                None => {
                    return self.all();
                },
            },
        };
        let mut out: Vec<String> = Vec::new();
        let mut i: usize = 0;
        proof {
            assert(strings_view(names@).take(0) =~= Seq::<Seq<char>>::empty());
        }
        while i < names.len()
            invariant
                i <= names@.len(),
                strings_view(out@) == known_among(strings_view(self.rules@), strings_view(names@).take(i as int)),
            decreases names@.len() - i,
        {
            let found = self.get(names[i].as_str());
            match found {
                Some(n) => out.push(n),
                None => {},
            }
            proof {
                let t = strings_view(names@).take(i + 1);
                assert(t.drop_last() =~= strings_view(names@).take(i as int));
                assert(t.last() == names@[i as int]@);
                assert(strings_view(out@) =~= known_among(strings_view(self.rules@), t));
            }
            i = i + 1;
        }
        proof {
            assert(strings_view(names@).take(names@.len() as int) =~= strings_view(names@));
        }
        out
    }
}

// ---------------------------------------------------------------------------
// The engine
// ---------------------------------------------------------------------------

/// A rule a skill asks for: by name, or with parameters.
pub enum SkillValidationRule {
    Simple(String),
    WithConfig { name: String, params: JsonValue },
}

pub struct SkillValidationConfig {
    pub rules: Vec<SkillValidationRule>,
}

pub open spec fn skill_rule_name(r: SkillValidationRule) -> Seq<char> {
    match r {
        SkillValidationRule::Simple(n) => n@,
        SkillValidationRule::WithConfig { name, .. } => name@,
    }
}

/// The parameters the last of the first `n` rules named `name` gives.
pub open spec fn skill_params(rules: Seq<SkillValidationRule>, n: int, name: Seq<char>) -> Option<JsonValue>
    decreases n,
{
    if n <= 0 {
        None
    } else {
        match rules[n - 1] {
            SkillValidationRule::WithConfig { name: k, params } => if k@ == name {
                Some(params)
            } else {
                skill_params(rules, n - 1, name)
            },
            _ => skill_params(rules, n - 1, name),
        }
    }
}

pub struct ValidationEngine {
    pub registry: RuleRegistry,
    pub skill_config: Option<SkillValidationConfig>,
}

/// The configuration a rule gets: the runtime configuration's entry for
/// it where that is an object with one, else the skill's parameters for it.
pub open spec fn rule_config_of(skill: Option<SkillValidationConfig>, runtime: Option<JsonValue>, name: Seq<char>) -> Option<JsonValue> {
    let from_runtime = match runtime {
        Some(rt) => json_get(rt, name),
        None => None,
    };
    match from_runtime {
        Some(v) => Some(v),
        None => match skill {
            Some(sc) => skill_params(sc.rules@, sc.rules@.len() as int, name),
            None => None,
        },
    }
}

/// What a rule gives on a file: its check, or the message of the error it
/// stopped with.
pub open spec fn rule_result(r: Result<ValidationCheck, String>, name: Seq<char>, fp: Seq<char>, f: FileFacts, cfg: Option<JsonValue>) -> bool {
    if name == "ooxml_valid"@ {
        r matches Ok(c) && plain_check(c, name, ooxml_outcome(fp, f).0, ooxml_outcome(fp, f).1)
    } else if name == "styles_exist"@ {
        r matches Ok(c) && plain_check(c, name, styles_outcome(fp, f, cfg).0, styles_outcome(fp, f, cfg).1)
    } else if name == "brand_colors_match"@ {
        r matches Ok(c) && plain_check(c, name, brand_outcome(fp, f, cfg).0, brand_outcome(fp, f, cfg).1)
    } else if name == "cross_references_valid"@ {
        r matches Ok(c) && plain_check(c, name, cross_refs_outcome(fp, f).0, cross_refs_outcome(fp, f).1)
    } else if name == "max_pages"@ {
        r matches Ok(c) && plain_check(c, name, max_pages_outcome(fp, f, cfg).0, max_pages_outcome(fp, f, cfg).1)
    } else {
        &&& !f.exists ==> (r matches Ok(c) && plain_check(c, name, false, not_found_text(fp)))
        &&& f.exists ==> match regex_error(placeholder_pattern()) {
            Some(e) => r matches Err(m) && m@ == e,
            None => r matches Ok(c) && {
                let found = found_placeholders(f, fp);
                &&& c.rule@ == name
                &&& c.passed == (found.len() == 0)
                &&& found.len() == 0 ==> c.details is None && c.fix_tool is None && c.fix_args is None
                &&& found.len() > 0 ==> {
                    &&& opt_view(c.details) == Some("Found "@ + decimal(found.len()) + " placeholder(s): "@ + crate::text::join(found, ", "@))
                    &&& opt_view(c.fix_tool) == Some("office_replace_text"@)
                    &&& placeholder_fix_args(c, fp, found)
                }
            },
        }
    }
}

/// The check recorded for a rule: its own, or a failed one that carries
/// the error.
pub open spec fn recorded_check(c: ValidationCheck, name: Seq<char>, fp: Seq<char>, f: FileFacts, cfg: Option<JsonValue>) -> bool {
    ||| rule_result(Ok(c), name, fp, f, cfg)
    ||| exists|e: String| rule_result(Err(e), name, fp, f, cfg) && plain_check(c, name, false, "Validation error: "@ + e@)
}

pub open spec fn passed_count(cs: Seq<ValidationCheck>, n: int) -> nat
    decreases n,
{
    if n <= 0 {
        0
    } else {
        passed_count(cs, n - 1) + if cs[n - 1].passed {
            1nat
        } else {
            0nat
        }
    }
}

pub proof fn lemma_passed_count_bound(cs: Seq<ValidationCheck>, n: int)
    requires
        0 <= n,
    ensures
        passed_count(cs, n) <= n,
    decreases n,
{
    if n > 0 {
        lemma_passed_count_bound(cs, n - 1);
    }
}

impl ValidationEngine {
    /// An engine that knows the six built-in rules.
    pub fn new() -> (e: Self)
        ensures
            strings_view(e.registry.rules@) == builtin_rules(),
            e.registry.active_filter is None,
            e.skill_config is None,
    {
        let rules = vec![
            "no_empty_placeholders".to_owned(),
            "brand_colors_match".to_owned(),
            "max_pages".to_owned(),
            "styles_exist".to_owned(),
            "cross_references_valid".to_owned(),
            "ooxml_valid".to_owned(),
        ];
        proof {
            assert(strings_view(rules@) =~= builtin_rules());
        }
        ValidationEngine { registry: RuleRegistry { rules, active_filter: None }, skill_config: None }
    }

    /// An engine limited to the rules a skill names, with their parameters.
    pub fn from_skill_config(config: SkillValidationConfig) -> (e: Self)
        ensures
            strings_view(e.registry.rules@) == builtin_rules(),
            e.registry.active_filter matches Some(f) && strings_view(f@) == config.rules@.map_values(
                |r: SkillValidationRule| skill_rule_name(r),
            ),
            e.skill_config == Some(config),
    {
        let mut engine = Self::new();
        let mut names: Vec<String> = Vec::new();
        let mut i: usize = 0;
        while i < config.rules.len()
            invariant
                i <= config.rules@.len(),
                strings_view(names@) == config.rules@.map_values(|r: SkillValidationRule| skill_rule_name(r)).take(i as int),
            decreases config.rules@.len() - i,
        {
            let n = match &config.rules[i] {
                SkillValidationRule::Simple(name) => name.clone(),
                SkillValidationRule::WithConfig { name, .. } => name.clone(),
            };
            let ghost before = names@;
            names.push(n);
            proof {
                assert(strings_view(names@) =~= strings_view(before).push(n@));
                assert(strings_view(names@) =~= config.rules@.map_values(|r: SkillValidationRule| skill_rule_name(r)).take(i + 1));
            }
            i = i + 1;
        }
        proof {
            assert(config.rules@.map_values(|r: SkillValidationRule| skill_rule_name(r)).take(config.rules@.len() as int)
                =~= config.rules@.map_values(|r: SkillValidationRule| skill_rule_name(r)));
        }
        engine.registry.set_active_filter(Some(names));
        engine.skill_config = Some(config);
        engine
    }

    /// The configuration a rule gets from the skill's parameters and the
    /// runtime configuration (the runtime's entry wins).
    pub fn rule_config<'a>(&'a self, runtime: Option<&'a JsonValue>, name: &str) -> (r: Option<&'a JsonValue>)
        ensures
            opt_json(r) == rule_config_of(self.skill_config, opt_json(runtime), name@),
    {
        match runtime {
            Some(rt) => match rt.get(name) {
                Some(v) => {
                    return Some(v);
                },
                None => {},
            },
            None => {},
        }
        match &self.skill_config {
            Some(sc) => {
                let mut k = sc.rules.len();
                while k > 0
                    invariant
                        k <= sc.rules@.len(),
                        self.skill_config == Some(*sc),
                        match opt_json(runtime) {
                            Some(rt) => json_get(rt, name@) is None,
                            None => true,
                        },
                        skill_params(sc.rules@, sc.rules@.len() as int, name@) == skill_params(sc.rules@, k as int, name@),
                    decreases k,
                {
                    match &sc.rules[k - 1] {
                        SkillValidationRule::WithConfig { name: n, params } => {
                            if str_eq(n.as_str(), name) {
                                return Some(params);
                            }
                        },
                        _ => {},
                    }
                    k = k - 1;
                }
                None
            },
            None => None,
        }
    }

    /// Runs one rule by name.
    pub fn run_rule(name: &str, file_path: &str, facts: &FileFacts, config: Option<&JsonValue>) -> (r: Result<ValidationCheck, String>)
        requires
            counts_fit(*facts),
            marks_fit(*facts),
            builtin_rules().contains(name@),
        ensures
            rule_result(r, name@, file_path@, *facts, opt_json(config)),
    {
        if str_eq(name, "ooxml_valid") {
            Ok(ooxml_valid(file_path, facts))
        } else if str_eq(name, "styles_exist") {
            Ok(styles_exist(file_path, facts, config))
        } else if str_eq(name, "brand_colors_match") {
            Ok(brand_colors_match(file_path, facts, config))
        } else if str_eq(name, "cross_references_valid") {
            Ok(cross_references_valid(file_path, facts))
        } else if str_eq(name, "max_pages") {
            Ok(max_pages(file_path, facts, config))
        } else {
            no_empty_placeholders(file_path, facts)
        }
    }

    /// Runs the rules that `check_names` (or else the active filter) selects
    /// on a file and reports how many passed; the time taken is the
    /// caller's to fill in.
    pub fn validate(
        &self,
        file_path: &str,
        facts: &FileFacts,
        check_names: Option<&[String]>,
        rules_config: Option<&JsonValue>,
    ) -> (report: ValidationReport)
        requires
            counts_fit(*facts),
            marks_fit(*facts),
            forall|k: int| 0 <= k < self.registry.rules@.len() ==> builtin_rules().contains(#[trigger] self.registry.rules@[k]@),
        ensures
            ({
                let names = match check_names {
                    Some(ns) => known_among(strings_view(self.registry.rules@), strings_view(ns@)),
                    None => match self.registry.active_filter {
                        Some(f) => known_among(strings_view(self.registry.rules@), strings_view(f@)),
                        None => strings_view(self.registry.rules@),
                    },
                };
                &&& report.checks@.len() == names.len()
                &&& forall|k: int| 0 <= k < names.len() ==> recorded_check(
                    #[trigger] report.checks@[k],
                    names[k],
                    file_path@,
                    *facts,
                    rule_config_of(self.skill_config, opt_json(rules_config), names[k]),
                )
                &&& report.passed == (passed_count(report.checks@, report.checks@.len() as int) == report.checks@.len())
                &&& report.summary@ == decimal(passed_count(report.checks@, report.checks@.len() as int)) + "/"@
                    + decimal(report.checks@.len() as nat) + " checks passed"@
                &&& report.duration_ms == 0
            }),
    {
        let applicable = self.registry.resolve(check_names);
        let ghost names = strings_view(applicable@);
        proof {
            assert forall|k: int| 0 <= k < names.len() implies builtin_rules().contains(#[trigger] names[k]) by {
                if check_names is None && self.registry.active_filter is None {
                    assert(self.registry.rules@[k]@ == names[k]);
                } else {
                    lemma_known_among_sub(strings_view(self.registry.rules@), match check_names {
                        Some(ns) => strings_view(ns@),
                        None => match self.registry.active_filter {
                            Some(f) => strings_view(f@),
                            None => Seq::empty(),
                        },
                    }, k);
                    let j = choose|j: int| 0 <= j < strings_view(self.registry.rules@).len() && strings_view(self.registry.rules@)[j] == names[k];
                    assert(self.registry.rules@[j]@ == names[k]);
                }
            }
        }
        let mut checks: Vec<ValidationCheck> = Vec::new();
        let mut i: usize = 0;
        while i < applicable.len()
            invariant
                i <= applicable@.len(),
                names == strings_view(applicable@),
                counts_fit(*facts),
                marks_fit(*facts),
                forall|k: int| 0 <= k < names.len() ==> builtin_rules().contains(#[trigger] names[k]),
                checks@.len() == i,
                forall|k: int| 0 <= k < i ==> recorded_check(
                    #[trigger] checks@[k],
                    names[k],
                    file_path@,
                    *facts,
                    rule_config_of(self.skill_config, opt_json(rules_config), names[k]),
                ),
            decreases applicable@.len() - i,
        {
            let name = applicable[i].as_str();
            proof {
                assert(names[i as int] == name@);
            }
            let cfg = self.rule_config(rules_config, name);
            let r = Self::run_rule(name, file_path, facts, cfg);
            match r {
                Ok(c) => checks.push(c),
                Err(e) => {
                    let c = ValidationCheck {
                        rule: name.to_owned(),
                        passed: false,
                        details: Some(message("Validation error: ", e.as_str())),
                        fix_tool: None,
                        fix_args: None,
                    };
                    proof {
                        assert(rule_result(Err(e), name@, file_path@, *facts, opt_json(cfg)));
                        assert(plain_check(c, name@, false, "Validation error: "@ + e@));
                    }
                    checks.push(c);
                },
            }
            i = i + 1;
        }
        let mut passed: usize = 0;
        let mut k: usize = 0;
        while k < checks.len()
            invariant
                k <= checks@.len(),
                passed == passed_count(checks@, k as int),
                passed <= k,
            decreases checks@.len() - k,
        {
            if checks[k].passed {
                passed = passed + 1;
            }
            k = k + 1;
        }
        let mut summary = String::new();
        push_str(&mut summary, u64_to_string(passed as u64).as_str());
        push_str(&mut summary, "/");
        push_str(&mut summary, u64_to_string(checks.len() as u64).as_str());
        push_str(&mut summary, " checks passed");
        let all = passed == checks.len();
        ValidationReport { passed: all, summary, checks, duration_ms: 0 }
    }
}

proof fn lemma_known_among_sub(rules: Seq<Seq<char>>, names: Seq<Seq<char>>, k: int)
    requires
        0 <= k < known_among(rules, names).len(),
    ensures
        rules.contains(known_among(rules, names)[k]),
    decreases names.len(),
{
    if names.len() > 0 {
        let prev = known_among(rules, names.drop_last());
        if k < prev.len() {
            lemma_known_among_sub(rules, names.drop_last(), k);
        }
    }
}

/// Runs the rules a skill names, with its parameters, on the file it produced.
pub fn validate_after_skill(
    skill_config: SkillValidationConfig,
    output_path: &str,
    facts: &FileFacts,
    runtime_config: Option<&JsonValue>,
) -> (report: ValidationReport)
    requires
        counts_fit(*facts),
        marks_fit(*facts),
    ensures
        report.checks@.len() == known_among(builtin_rules(), skill_config.rules@.map_values(
            |r: SkillValidationRule| skill_rule_name(r),
        )).len(),
{
    let engine = ValidationEngine::from_skill_config(skill_config);
    proof {
        assert forall|k: int| 0 <= k < engine.registry.rules@.len() implies builtin_rules().contains(#[trigger] engine.registry.rules@[k]@) by {
            assert(strings_view(engine.registry.rules@)[k] == engine.registry.rules@[k]@);
        }
    }
    engine.validate(output_path, facts, None, runtime_config)
}

} // verus!
