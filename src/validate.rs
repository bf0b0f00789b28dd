//! Validators over values, and the schema that an example value implies.
use vstd::prelude::*;
use crate::pattern::{regex_finds, Pattern};
use crate::value::{
    copy_entries, copy_items, copy_value, entries_equal, entries_view, items_equal, items_view, field, find_key, has_key, json_eq, lemma_array_view,
    lemma_object_view, num_eq, num_le, type_of, Json, JsonType, Number, Value,
};

verus! {

/// An acceptance predicate over values.
#[derive(Debug)]
pub enum ValueValidator {
    /// Accepts every value.
    AnyValue,
    /// Accepts a value whose type is one of these.
    Type(Vec<JsonType>),
    Bool(bool),
    ExactNumber(Number),
    /// Accepts a number between the two bounds, both included.
    NumericRange(Number, Number),
    ExactString(String),
    /// Accepts a string in which the pattern matches somewhere.
    RegexString(Pattern),
    ExactArray(Vec<Value>),
    /// Accepts an array with at least one element that the inner validator accepts.
    ArrayContains(Box<ValueValidator>),
    /// Accepts an object that has the key, with a value that the inner validator accepts.
    ObjectContains(String, Box<ValueValidator>),
    /// Accepts an object that lacks the key.
    ObjectNotContains(String),
    ExactObject(Vec<(String, Value)>),
    /// Accepts a value that every one of these accepts.
    AllOf(Vec<ValueValidator>),
}

/// The mathematical model of a [`ValueValidator`].
pub enum Rule {
    Any,
    Types(Seq<JsonType>),
    Bool(bool),
    Number(Number),
    Range(Number, Number),
    Str(Seq<char>),
    Regex(Seq<char>),
    Array(Seq<Json>),
    Contains(Box<Rule>),
    HasKey(Seq<char>, Box<Rule>),
    LacksKey(Seq<char>),
    Object(Seq<(Seq<char>, Json)>),
    All(Seq<Rule>),
}

pub open spec fn validator_view(v: ValueValidator) -> Rule
    decreases v,
{
    match v {
        ValueValidator::AnyValue => Rule::Any,
        ValueValidator::Type(ts) => Rule::Types(ts@),
        ValueValidator::Bool(b) => Rule::Bool(b),
        ValueValidator::ExactNumber(n) => Rule::Number(n),
        ValueValidator::NumericRange(lo, hi) => Rule::Range(lo, hi),
        ValueValidator::ExactString(s) => Rule::Str(s@),
        ValueValidator::RegexString(p) => Rule::Regex(p@),
        ValueValidator::ExactArray(xs) => Rule::Array(items_view(xs@)),
        ValueValidator::ArrayContains(inner) => Rule::Contains(Box::new(validator_view(*inner))),
        ValueValidator::ObjectContains(k, inner) => Rule::HasKey(
            k@,
            Box::new(validator_view(*inner)),
        ),
        ValueValidator::ObjectNotContains(k) => Rule::LacksKey(k@),
        ValueValidator::ExactObject(fs) => Rule::Object(entries_view(fs@)),
        ValueValidator::AllOf(vs) => Rule::All(
            Seq::new(
                vs.len() as nat,
                |i: int|
                    if 0 <= i < vs.len() {
                        validator_view(vs[i])
                    } else {
                        Rule::Any
                    },
            ),
        ),
    }
}

impl View for ValueValidator {
    type V = Rule;

    open spec fn view(&self) -> Rule {
        validator_view(*self)
    }
}

/// Why a value was rejected.
#[derive(Debug)]
pub enum ValueProblem {
    DisallowedType { allowed_types: Vec<JsonType>, actual_type: JsonType },
    WrongValue { expected: Value, actual: Value },
    NoRegexMatch { regex: String, actual: Value },
    NoArrayContains,
    MissingKey { key: String },
    DisallowedKey { key: String },
    OutOfRange { low: Number, high: Number, actual: Value },
}

/// The mathematical model of a [`ValueProblem`].
pub enum Mismatch {
    DisallowedType { allowed: Seq<JsonType>, actual_type: JsonType },
    WrongValue { expected: Json, actual: Json },
    NoRegexMatch { pattern: Seq<char>, actual: Json },
    NoArrayContains,
    MissingKey { key: Seq<char> },
    DisallowedKey { key: Seq<char> },
    OutOfRange { low: Number, high: Number, actual: Json },
}

impl View for ValueProblem {
    type V = Mismatch;

    open spec fn view(&self) -> Mismatch {
        match *self {
            ValueProblem::DisallowedType { allowed_types, actual_type } => Mismatch::DisallowedType {
                allowed: allowed_types@,
                actual_type,
            },
            ValueProblem::WrongValue { expected, actual } => Mismatch::WrongValue {
                expected: expected@,
                actual: actual@,
            },
            ValueProblem::NoRegexMatch { regex, actual } => Mismatch::NoRegexMatch {
                pattern: regex@,
                actual: actual@,
            },
            ValueProblem::NoArrayContains => Mismatch::NoArrayContains,
            ValueProblem::MissingKey { key } => Mismatch::MissingKey { key: key@ },
            ValueProblem::DisallowedKey { key } => Mismatch::DisallowedKey { key: key@ },
            ValueProblem::OutOfRange { low, high, actual } => Mismatch::OutOfRange {
                low,
                high,
                actual: actual@,
            },
        }
    }
}

/// A problem is a failed check.
impl From<ValueProblem> for Result<(), ValueProblem> {
    fn from(value_problem: ValueProblem) -> (r: Self)
        ensures
            r == Err::<(), ValueProblem>(value_problem),
    {
        Err(value_problem)
    }
}

impl vstd::std_specs::convert::FromSpecImpl<ValueProblem> for Result<(), ValueProblem> {
    open spec fn obeys_from_spec() -> bool {
        true
    }

    open spec fn from_spec(v: ValueProblem) -> Self {
        Err(v)
    }
}

/// The model of the outcome of a check: success, or the problem found.
pub open spec fn outcome_view(r: Result<(), ValueProblem>) -> Result<(), Mismatch> {
    match r {
        Ok(()) => Ok(()),
        Err(p) => Err(p@),
    }
}

/// What checking `j` against `r` gives: `Ok`, or the first problem found.
/// A failing nested clause decides the outcome; nothing is aggregated.
pub open spec fn evaluation(r: Rule, j: Json) -> Result<(), Mismatch>
    decreases r, 0int,
{
    match r {
        Rule::Any => Ok(()),
        Rule::Types(ts) => if ts.contains(type_of(j)) {
            Ok(())
        } else {
            Err(Mismatch::DisallowedType { allowed: ts, actual_type: type_of(j) })
        },
        Rule::Bool(b) => if j == Json::Bool(b) {
            Ok(())
        } else {
            Err(Mismatch::WrongValue { expected: Json::Bool(b), actual: j })
        },
        Rule::Number(n) => if j matches Json::Number(m) && num_eq(m, n) {
            Ok(())
        } else {
            Err(Mismatch::WrongValue { expected: Json::Number(n), actual: j })
        },
        Rule::Range(lo, hi) => if j matches Json::Number(m) && num_le(lo, m) && num_le(m, hi) {
            Ok(())
        } else {
            Err(Mismatch::OutOfRange { low: lo, high: hi, actual: j })
        },
        Rule::Str(s) => if j == Json::Str(s) {
            Ok(())
        } else {
            Err(Mismatch::WrongValue { expected: Json::Str(s), actual: j })
        },
        Rule::Regex(p) => if j matches Json::Str(s) && regex_finds(p, s) {
            Ok(())
        } else {
            Err(Mismatch::NoRegexMatch { pattern: p, actual: j })
        },
        Rule::Array(xs) => if json_eq(Json::Array(xs), j) {
            Ok(())
        } else {
            Err(Mismatch::WrongValue { expected: Json::Array(xs), actual: j })
        },
        Rule::Contains(inner) => match j {
            Json::Array(ys) => if any_from(*inner, ys, 0) {
                Ok(())
            } else {
                Err(Mismatch::NoArrayContains)
            },
            _ => Err(Mismatch::NoArrayContains),
        },
        Rule::HasKey(k, inner) => match j {
            Json::Object(f) => if has_key(f, k) {
                evaluation(*inner, field(f, k))
            } else {
                Err(Mismatch::MissingKey { key: k })
            },
            _ => Err(Mismatch::DisallowedType { allowed: seq![JsonType::Object], actual_type: type_of(j) }),
        },
        Rule::LacksKey(k) => match j {
            Json::Object(f) => if has_key(f, k) {
                Err(Mismatch::DisallowedKey { key: k })
            } else {
                Ok(())
            },
            _ => Err(Mismatch::DisallowedType { allowed: seq![JsonType::Object], actual_type: type_of(j) }),
        },
        Rule::Object(f) => if json_eq(Json::Object(f), j) {
            Ok(())
        } else {
            Err(Mismatch::WrongValue { expected: Json::Object(f), actual: j })
        },
        Rule::All(rules) => all_from(rules, j, 0),
    }
}

/// Whether `r` accepts one of `ys[i..]`.
pub open spec fn any_from(r: Rule, ys: Seq<Json>, i: int) -> bool
    decreases r, ys.len() - i,
{
    if 0 <= i < ys.len() {
        evaluation(r, ys[i]) is Ok || any_from(r, ys, i + 1)
    } else {
        false
    }
}

/// Checks `j` against `rules[i..]` in order, stopping at the first problem.
pub open spec fn all_from(rules: Seq<Rule>, j: Json, i: int) -> Result<(), Mismatch>
    decreases rules, rules.len() - i,
{
    if 0 <= i < rules.len() {
        match evaluation(rules[i], j) {
            Err(e) => Err(e),
            Ok(()) => all_from(rules, j, i + 1),
        }
    } else {
        Ok(())
    }
}

/// Whether `t` is one of `types`.
fn type_listed(types: &Vec<JsonType>, t: JsonType) -> (r: bool)
    ensures
        r == types@.contains(t),
{
    let mut i: usize = 0;
    while i < types.len()
        invariant
            i <= types.len(),
            forall|m: int| 0 <= m < i ==> types@[m] != t,
        decreases types.len() - i,
    {
        if types[i] == t {
            return true;
        }
        i = i + 1;
    }
    false
}

fn copy_types(types: &Vec<JsonType>) -> (r: Vec<JsonType>)
    ensures
        r@ == types@,
{
    let mut out: Vec<JsonType> = Vec::new();
    let mut i: usize = 0;
    while i < types.len()
        invariant
            i <= types.len(),
            out@ == types@.subrange(0, i as int),
        decreases types.len() - i,
    {
        out.push(types[i]);
        i = i + 1;
    }
    assert(types@.subrange(0, types.len() as int) =~= types@);
    out
}

fn single_type(t: JsonType) -> (r: Vec<JsonType>)
    ensures
        r@ == seq![t],
{
    let mut v: Vec<JsonType> = Vec::new();
    v.push(t);
    assert(v@ =~= seq![t]);
    v
}

impl ValueValidator {
    /// Checks `value`: `Ok` where it is accepted, else the first problem
    /// found, exactly as [`evaluation`] states.
    pub fn allows(&self, value: &Value) -> (r: Result<(), ValueProblem>)
        ensures
            outcome_view(r) == evaluation(self@, value@),
        decreases self,
    {
        match self {
            ValueValidator::AnyValue => Ok(()),
            ValueValidator::Type(allowed) => {
                let t = JsonType::of(value);
                if type_listed(allowed, t) {
                    Ok(())
                } else {
                    Err(ValueProblem::DisallowedType { allowed_types: copy_types(allowed), actual_type: t })
                }
            },
            ValueValidator::Bool(expected) => match value {
                Value::Bool(actual) if *actual == *expected => Ok(()),
                _ => Err(ValueProblem::WrongValue { expected: Value::Bool(*expected), actual: copy_value(value) }),
            },
            ValueValidator::ExactNumber(expected) => match value {
                Value::Number(actual) if actual.equals(expected) => Ok(()),
                _ => Err(ValueProblem::WrongValue { expected: Value::Number(*expected), actual: copy_value(value) }),
            },
            ValueValidator::NumericRange(low, high) => match value {
                Value::Number(actual) if low.at_most(actual) && actual.at_most(high) => Ok(()),
                _ => Err(ValueProblem::OutOfRange { low: *low, high: *high, actual: copy_value(value) }),
            },
            ValueValidator::ExactString(expected) => match value {
                Value::String(actual) if *actual == *expected => Ok(()),
                _ => Err(ValueProblem::WrongValue { expected: Value::String(expected.clone()), actual: copy_value(value) }),
            },
            ValueValidator::RegexString(pattern) => match value {
                Value::String(actual) if pattern.is_match(actual.as_str()) => Ok(()),
                _ => Err(ValueProblem::NoRegexMatch { regex: pattern.as_str().to_string(), actual: copy_value(value) }),
            },
            ValueValidator::ExactArray(expected) => {
                let equal = match value {
                    Value::Array(actual) => {
                        proof {
                            lemma_array_view(*actual);
                        }
                        items_equal(expected, actual)
                    },
                    _ => false,
                };
                if equal {
                    Ok(())
                } else {
                    let copy = copy_items(expected);
                    proof {
                        lemma_array_view(copy);
                    }
                    Err(ValueProblem::WrongValue { expected: Value::Array(copy), actual: copy_value(value) })
                }
            },
            ValueValidator::ArrayContains(inner) => match value {
                Value::Array(actual) => {
                    proof {
                        lemma_array_view(*actual);
                    }
                    let ghost ys = items_view(actual@);
                    let ghost x = (**inner)@;
                    let mut i: usize = 0;
                    while i < actual.len()
                        invariant
                            i <= actual.len(),
                            ys == items_view(actual@),
                            value@ == Json::Array(ys),
                            *self == ValueValidator::ArrayContains(*inner),
                            self@ == Rule::Contains(Box::new(x)),
                            x == (**inner)@,
                            any_from(x, ys, 0) == any_from(x, ys, i as int),
                        decreases actual.len() - i,
                    {
                        proof {
                            assert(decreases_to!(*self => (*self)->ArrayContains_0));
                        }
                        if inner.allows(&actual[i]).is_ok() {
                            return Ok(());
                        }
                        i = i + 1;
                    }
                    Err(ValueProblem::NoArrayContains)
                },
                _ => Err(ValueProblem::NoArrayContains),
            },
            ValueValidator::ObjectContains(key, inner) => match value {
                Value::Object(fields) => {
                    proof {
                        lemma_object_view(*fields);
                    }
                    match find_key(fields, key) {
                        Some(i) => {
                            assert(field(entries_view(fields@), key@) == fields@[i as int].1@);
                            proof {
                                assert(decreases_to!(*self => (*self)->ObjectContains_1));
                            }
                            inner.allows(&fields[i].1)
                        },
                        None => Err(ValueProblem::MissingKey { key: key.clone() }),
                    }
                },
                _ => Err(ValueProblem::DisallowedType { allowed_types: single_type(JsonType::Object), actual_type: JsonType::of(value) }),
            },
            ValueValidator::ObjectNotContains(key) => match value {
                Value::Object(fields) => {
                    proof {
                        lemma_object_view(*fields);
                    }
                    match find_key(fields, key) {
                        Some(_) => Err(ValueProblem::DisallowedKey { key: key.clone() }),
                        None => Ok(()),
                    }
                },
                _ => Err(ValueProblem::DisallowedType { allowed_types: single_type(JsonType::Object), actual_type: JsonType::of(value) }),
            },
            ValueValidator::ExactObject(expected) => {
                let equal = match value {
                    Value::Object(actual) => {
                        proof {
                            lemma_object_view(*actual);
                        }
                        entries_equal(expected, actual)
                    },
                    _ => false,
                };
                if equal {
                    Ok(())
                } else {
                    let copy = copy_entries(expected);
                    proof {
                        lemma_object_view(copy);
                    }
                    Err(ValueProblem::WrongValue { expected: Value::Object(copy), actual: copy_value(value) })
                }
            },
            ValueValidator::AllOf(validators) => {
                let ghost rules = Seq::new(validators.len() as nat, |i: int| validators[i]@);
                assert(self@ == Rule::All(rules)) by {
                    if let Rule::All(rs) = self@ {
                        assert(rs =~= rules);
                    }
                }
                let mut i: usize = 0;
                while i < validators.len()
                    invariant
                        i <= validators.len(),
                        rules == Seq::new(validators.len() as nat, |i: int| validators[i]@),
                        *self == ValueValidator::AllOf(*validators),
                        self@ == Rule::All(rules),
                        all_from(rules, value@, 0) == all_from(rules, value@, i as int),
                    decreases validators.len() - i,
                {
                    proof {
                        assert(decreases_to!(*self => (*self)->AllOf_0));
                        vstd::std_specs::vec::axiom_vec_index_decreases(*validators, i as int);
                    }
                    let r = validators[i].allows(value);
                    if r.is_err() {
                        return r;
                    }
                    i = i + 1;
                }
                Ok(())
            },
        }
    }
}

/// The validator that an example value implies: scalars must be equal,
/// every element of an example array must be matched by some element of the
/// candidate array, and every key of an example object must be present with
/// a matching value (further keys are allowed).
pub open spec fn inferred(j: Json) -> Rule
    decreases j,
{
    match j {
        Json::Null => Rule::Types(seq![JsonType::Null]),
        Json::Bool(b) => Rule::Bool(b),
        Json::Number(n) => Rule::Number(n),
        Json::Str(s) => Rule::Str(s),
        Json::Array(xs) => Rule::All(
            seq![Rule::Types(seq![JsonType::Array])] + Seq::new(
                xs.len(),
                |i: int|
                    if 0 <= i < xs.len() {
                        Rule::Contains(Box::new(inferred(xs[i])))
                    } else {
                        Rule::Any
                    },
            ),
        ),
        Json::Object(f) => Rule::All(
            seq![Rule::Types(seq![JsonType::Object])] + Seq::new(
                f.len(),
                |i: int|
                    if 0 <= i < f.len() {
                        Rule::HasKey(f[i].0, Box::new(inferred(f[i].1)))
                    } else {
                        Rule::Any
                    },
            ),
        ),
    }
}

/// The rules inferred from an example array: it is an array, and each
/// element of the example is matched by some element.
pub open spec fn array_rules(xs: Seq<Json>) -> Seq<Rule> {
    seq![Rule::Types(seq![JsonType::Array])] + Seq::new(
        xs.len(),
        |i: int|
            if 0 <= i < xs.len() {
                Rule::Contains(Box::new(inferred(xs[i])))
            } else {
                Rule::Any
            },
    )
}

/// The rules inferred from an example object: it is an object, and each
/// key of the example is present with a matching value.
pub open spec fn object_rules(f: Seq<(Seq<char>, Json)>) -> Seq<Rule> {
    seq![Rule::Types(seq![JsonType::Object])] + Seq::new(
        f.len(),
        |i: int|
            if 0 <= i < f.len() {
                Rule::HasKey(f[i].0, Box::new(inferred(f[i].1)))
            } else {
                Rule::Any
            },
    )
}

proof fn lemma_inferred_array(xs: Seq<Json>)
    ensures
        inferred(Json::Array(xs)) == Rule::All(array_rules(xs)),
{
    if let Rule::All(rs) = inferred(Json::Array(xs)) {
        assert(rs =~= array_rules(xs));
    }
}

proof fn lemma_inferred_object(f: Seq<(Seq<char>, Json)>)
    ensures
        inferred(Json::Object(f)) == Rule::All(object_rules(f)),
{
    if let Rule::All(rs) = inferred(Json::Object(f)) {
        assert(rs =~= object_rules(f));
    }
}

proof fn lemma_all_view(vs: Vec<ValueValidator>, rules: Seq<Rule>)
    requires
        vs.len() == rules.len(),
        forall|m: int| 0 <= m < vs.len() ==> (#[trigger] vs[m])@ == rules[m],
    ensures
        ValueValidator::AllOf(vs)@ == Rule::All(rules),
{
    if let Rule::All(rs) = ValueValidator::AllOf(vs)@ {
        assert(rs =~= rules);
    }
}

/// The validator that `example` implies, as [`inferred`] states.
pub fn infer(example: &Value) -> (r: ValueValidator)
    ensures
        r@ == inferred(example@),
    decreases example,
{
    match example {
        Value::Null => ValueValidator::Type(single_type(JsonType::Null)),
        Value::Bool(b) => ValueValidator::Bool(*b),
        Value::Number(n) => ValueValidator::ExactNumber(*n),
        Value::String(s) => ValueValidator::ExactString(s.clone()),
        Value::Array(xs) => {
            proof {
                lemma_array_view(*xs);
            }
            let ghost ex = items_view(xs@);
            let ghost want = array_rules(ex);
            let mut rules: Vec<ValueValidator> = Vec::new();
            rules.push(ValueValidator::Type(single_type(JsonType::Array)));
            let mut i: usize = 0;
            while i < xs.len()
                invariant
                    i <= xs.len(),
                    *example == Value::Array(*xs),
                    ex == items_view(xs@),
                    example@ == Json::Array(ex),
                    want.len() == xs.len() + 1,
                    want == array_rules(ex),
                    rules.len() == i + 1,
                    forall|m: int| 0 <= m <= i ==> (#[trigger] rules[m])@ == want[m],
                decreases xs.len() - i,
            {
                proof {
                    assert(decreases_to!(*example => (*example)->Array_0));
                    vstd::std_specs::vec::axiom_vec_index_decreases(*xs, i as int);
                }
                let inner = infer(&xs[i]);
                rules.push(ValueValidator::ArrayContains(Box::new(inner)));
                i = i + 1;
            }
            proof {
                lemma_all_view(rules, want);
                lemma_inferred_array(ex);
            }
            ValueValidator::AllOf(rules)
        },
        Value::Object(fs) => {
            proof {
                lemma_object_view(*fs);
            }
            let ghost ef = entries_view(fs@);
            let ghost want = object_rules(ef);
            let mut rules: Vec<ValueValidator> = Vec::new();
            rules.push(ValueValidator::Type(single_type(JsonType::Object)));
            let mut i: usize = 0;
            while i < fs.len()
                invariant
                    i <= fs.len(),
                    *example == Value::Object(*fs),
                    ef == entries_view(fs@),
                    example@ == Json::Object(ef),
                    want.len() == fs.len() + 1,
                    want == object_rules(ef),
                    rules.len() == i + 1,
                    forall|m: int| 0 <= m <= i ==> (#[trigger] rules[m])@ == want[m],
                decreases fs.len() - i,
            {
                proof {
                    assert(decreases_to!(*example => (*example)->Object_0));
                    vstd::std_specs::vec::axiom_vec_index_decreases(*fs, i as int);
                    assert(decreases_to!(fs[i as int] => fs[i as int].1));
                }
                let inner = infer(&fs[i].1);
                rules.push(ValueValidator::ObjectContains(fs[i].0.clone(), Box::new(inner)));
                i = i + 1;
            }
            proof {
                lemma_all_view(rules, want);
                lemma_inferred_object(ef);
            }
            ValueValidator::AllOf(rules)
        },
    }
}

/// Every object, at any depth, has pairwise distinct keys (as any value
/// parsed from JSON, YAML or TOML has).
pub open spec fn well_formed(j: Json) -> bool
    decreases j,
{
    match j {
        Json::Array(xs) => forall|i: int| 0 <= i < xs.len() ==> well_formed(#[trigger] xs[i]),
        Json::Object(f) => {
            &&& forall|a: int, b: int| 0 <= a < b < f.len() ==> #[trigger] f[a].0 != #[trigger] f[b].0
            &&& forall|i: int| 0 <= i < f.len() ==> well_formed(#[trigger] f[i].1)
        },
        _ => true,
    }
}

proof fn lemma_all_from_ok(rules: Seq<Rule>, j: Json, i: int)
    requires
        0 <= i <= rules.len(),
        forall|m: int| i <= m < rules.len() ==> (#[trigger] evaluation(rules[m], j)) is Ok,
    ensures
        all_from(rules, j, i) is Ok,
    decreases rules.len() - i,
{
    if i < rules.len() {
        assert(evaluation(rules[i], j) is Ok);
        lemma_all_from_ok(rules, j, i + 1);
    }
}

proof fn lemma_any_from(r: Rule, ys: Seq<Json>, i: int, k: int)
    requires
        0 <= i <= k < ys.len(),
        evaluation(r, ys[k]) is Ok,
    ensures
        any_from(r, ys, i),
    decreases k - i,
{
    if i < k {
        lemma_any_from(r, ys, i + 1, k);
    }
}

/// An example value is always accepted by the validator inferred from it.
pub proof fn lemma_example_matches_its_schema(j: Json)
    requires
        well_formed(j),
    ensures
        evaluation(inferred(j), j) is Ok,
    decreases j,
{
    match j {
        Json::Null => {
            assert(seq![JsonType::Null][0] == JsonType::Null);
        },
        Json::Number(n) => {},
        Json::Array(xs) => {
            let rules = array_rules(xs);
            lemma_inferred_array(xs);
            assert(seq![JsonType::Array][0] == JsonType::Array);
            assert forall|m: int| 0 <= m < rules.len() implies (#[trigger] evaluation(rules[m], j)) is Ok by {
                if m > 0 {
                    let k = m - 1;
                    assert(well_formed(xs[k]));
                    lemma_example_matches_its_schema(xs[k]);
                    lemma_any_from(inferred(xs[k]), xs, 0, k);
                }
            }
            lemma_all_from_ok(rules, j, 0);
        },
        Json::Object(f) => {
            let rules = object_rules(f);
            lemma_inferred_object(f);
            assert(seq![JsonType::Object][0] == JsonType::Object);
            assert forall|m: int| 0 <= m < rules.len() implies (#[trigger] evaluation(rules[m], j)) is Ok by {
                if m > 0 {
                    let k = m - 1;
                    assert(well_formed(f[k].1));
                    assert forall|p: int| 0 <= p < k implies #[trigger] f[p].0 != f[k].0 by {
                        assert(f[p].0 != f[k].0);
                    }
                    crate::value::lemma_first_key_unique(f, f[k].0, k);
                    lemma_example_matches_its_schema(f[k].1);
                }
            }
            lemma_all_from_ok(rules, j, 0);
        },
        _ => {},
    }
}

/// Array containment ignores order and length: the schema inferred from
/// the example array `xs` accepts any array `ys` in which each element of
/// `xs` occurs somewhere, whatever the order and whatever else `ys` holds.
pub proof fn lemma_containment_ignores_order(xs: Seq<Json>, ys: Seq<Json>)
    requires
        well_formed(Json::Array(xs)),
        forall|i: int| 0 <= i < xs.len() ==> exists|k: int| 0 <= k < ys.len() && ys[k] == #[trigger] xs[i],
    ensures
        evaluation(inferred(Json::Array(xs)), Json::Array(ys)) is Ok,
{
    let j = Json::Array(ys);
    let rules = array_rules(xs);
    lemma_inferred_array(xs);
    assert(seq![JsonType::Array][0] == JsonType::Array);
    assert forall|m: int| 0 <= m < rules.len() implies (#[trigger] evaluation(rules[m], j)) is Ok by {
        if m > 0 {
            let k = m - 1;
            assert(well_formed(xs[k]));
            let p = choose|p: int| 0 <= p < ys.len() && ys[p] == xs[k];
            lemma_example_matches_its_schema(xs[k]);
            lemma_any_from(inferred(xs[k]), ys, 0, p);
        }
    }
    lemma_all_from_ok(rules, j, 0);
}

/// Containment is checked element by element: where the schema of `b`
/// rejects `a`, the schema inferred from `[a, b]` rejects `[a]` for want of
/// an element that matches `b`.
pub proof fn lemma_missing_element_rejected(a: Json, b: Json)
    requires
        well_formed(a),
        well_formed(b),
        evaluation(inferred(b), a) is Err,
    ensures
        evaluation(inferred(Json::Array(seq![a, b])), Json::Array(seq![a])) == Err::<(), Mismatch>(
            Mismatch::NoArrayContains,
        ),
{
    let xs = seq![a, b];
    let j = Json::Array(seq![a]);
    let rules = array_rules(xs);
    lemma_inferred_array(xs);
    assert(seq![JsonType::Array][0] == JsonType::Array);
    assert(evaluation(rules[0], j) is Ok);
    lemma_example_matches_its_schema(a);
    lemma_any_from(inferred(a), seq![a], 0, 0);
    assert(evaluation(rules[1], j) is Ok);
    assert(!any_from(inferred(b), seq![a], 1));
    assert(!any_from(inferred(b), seq![a], 0));
    assert(evaluation(rules[2], j) == Err::<(), Mismatch>(Mismatch::NoArrayContains));
    assert(all_from(rules, j, 3) is Ok);
    assert(all_from(rules, j, 2) == Err::<(), Mismatch>(Mismatch::NoArrayContains));
    assert(all_from(rules, j, 1) == Err::<(), Mismatch>(Mismatch::NoArrayContains));
    assert(all_from(rules, j, 0) == Err::<(), Mismatch>(Mismatch::NoArrayContains));
    assert(evaluation(Rule::All(rules), j) == all_from(rules, j, 0));
}

/// Objects are open: the schema inferred from an example object accepts any
/// object that holds each of the example's keys with the same value, whatever
/// further keys it has.
pub proof fn lemma_objects_are_open(f: Seq<(Seq<char>, Json)>, g: Seq<(Seq<char>, Json)>)
    requires
        well_formed(Json::Object(f)),
        forall|i: int|
            0 <= i < f.len() ==> has_key(g, #[trigger] f[i].0) && field(g, f[i].0) == f[i].1,
    ensures
        evaluation(inferred(Json::Object(f)), Json::Object(g)) is Ok,
{
    let j = Json::Object(g);
    let rules = object_rules(f);
    lemma_inferred_object(f);
    assert(seq![JsonType::Object][0] == JsonType::Object);
    assert forall|m: int| 0 <= m < rules.len() implies (#[trigger] evaluation(rules[m], j)) is Ok by {
        if m > 0 {
            let k = m - 1;
            assert(well_formed(f[k].1));
            assert(has_key(g, f[k].0));
            lemma_example_matches_its_schema(f[k].1);
        }
    }
    lemma_all_from_ok(rules, j, 0);
}

} // verus!
