//! The condition language: boolean combinations of string predicates,
//! evaluated against one string.

use vstd::prelude::*;
use crate::text::{seq_has_substring, str_contains, str_ends_with, str_eq, str_starts_with};
use crate::json::{jm_fields_wf, jm_list_wf, jm_wf, jtext, jview, jview_list, JsonModel, JsonValue};
use vstd::string::StringExecFns;

verus! {

#[verifier::external_type_specification]
#[verifier::external_body]
pub struct ExRegex(regex::Regex);

/// Whether the regex crate accepts this pattern.
pub uninterp spec fn regex_compiles(pattern: Seq<char>) -> bool;

/// Whether a regex compiled from `pattern` finds a match in `text`.
pub uninterp spec fn regex_match(pattern: Seq<char>, text: Seq<char>) -> bool;

/// A regular expression kept together with the pattern it was compiled
/// from. Only [`CompiledRegex::new`] and `clone` build values of this
/// type, so the automaton always belongs to the stored pattern.
pub struct CompiledRegex {
    regex: regex::Regex,
    source: String,
}

impl CompiledRegex {
    /// The pattern this regex was compiled from.
    pub closed spec fn pattern(&self) -> Seq<char> {
        self.source@
    }

    /// Relies on regex::Regex::new: compilation succeeds or fails on the
    /// pattern alone, and the compiled regex is kept beside its source.
    #[verifier::external_body]
    pub fn new(source: String) -> (r: Option<CompiledRegex>)
        ensures
            r is Some <==> regex_compiles(source@),
            r matches Some(c) ==> c.pattern() == source@,
    {
        match regex::Regex::new(&source) {
            Ok(regex) => Some(CompiledRegex { regex, source }),
            Err(_) => None,
        }
    }

    /// Relies on regex::Regex::is_match: for a regex compiled from
    /// `pattern()`, the answer is a function of the pattern and the text.
    #[verifier::external_body]
    pub fn is_match(&self, text: &str) -> (r: bool)
        ensures
            r == regex_match(self.pattern(), text@),
    {
        self.regex.is_match(text)
    }

    /// The pattern as a string slice.
    pub fn as_str(&self) -> (r: &str)
        ensures
            r@ == self.pattern(),
    {
        self.source.as_str()
    }
}

impl Clone for CompiledRegex {
    /// Relies on regex::Regex::clone: the clone matches as the source regex.
    #[verifier::external_body]
    fn clone(&self) -> (r: Self)
        ensures
            r.pattern() == self.pattern(),
    {
        CompiledRegex { regex: self.regex.clone(), source: self.source.clone() }
    }
}

/// One predicate over a string.
pub enum StringExpression {
    RegexMatch { value: CompiledRegex },
    Equals { value: String },
    StartsWith { value: String },
    EndsWith { value: String },
    Contains { value: String },
}

/// A boolean combination of string predicates.
pub enum Condition {
    AND(Vec<Condition>),
    OR(Vec<Condition>),
    NOT(Box<Condition>),
    ANY,
    ONE(StringExpression),
}

/// The mathematical shape of a predicate.
pub enum ExprModel {
    RegexMatch(Seq<char>),
    Equals(Seq<char>),
    StartsWith(Seq<char>),
    EndsWith(Seq<char>),
    Contains(Seq<char>),
}

/// The mathematical shape of a condition.
pub enum CondModel {
    And(Seq<CondModel>),
    Or(Seq<CondModel>),
    Not(Box<CondModel>),
    Any,
    One(ExprModel),
}

pub open spec fn expr_view(e: StringExpression) -> ExprModel {
    match e {
        StringExpression::RegexMatch { value } => ExprModel::RegexMatch(value.pattern()),
        StringExpression::Equals { value } => ExprModel::Equals(value@),
        StringExpression::StartsWith { value } => ExprModel::StartsWith(value@),
        StringExpression::EndsWith { value } => ExprModel::EndsWith(value@),
        StringExpression::Contains { value } => ExprModel::Contains(value@),
    }
}

pub open spec fn cond_view(c: Condition) -> CondModel
    decreases c,
{
    match c {
        Condition::AND(cs) => CondModel::And(cond_view_list(cs@)),
        Condition::OR(cs) => CondModel::Or(cond_view_list(cs@)),
        Condition::NOT(b) => CondModel::Not(Box::new(cond_view(*b))),
        Condition::ANY => CondModel::Any,
        Condition::ONE(e) => CondModel::One(expr_view(e)),
    }
}

pub open spec fn cond_view_list(cs: Seq<Condition>) -> Seq<CondModel>
    decreases cs,
{
    if cs.len() == 0 {
        Seq::empty()
    } else {
        seq![cond_view(cs[0])] + cond_view_list(cs.drop_first())
    }
}

impl View for StringExpression {
    type V = ExprModel;

    open spec fn view(&self) -> ExprModel {
        expr_view(*self)
    }
}

impl View for Condition {
    type V = CondModel;

    open spec fn view(&self) -> CondModel {
        cond_view(*self)
    }
}

pub proof fn lemma_cond_view_list_index(cs: Seq<Condition>)
    ensures
        cond_view_list(cs).len() == cs.len(),
        forall|i: int| 0 <= i < cs.len() ==> cond_view_list(cs)[i] == cond_view(cs[i]),
    decreases cs,
{
    if cs.len() > 0 {
        lemma_cond_view_list_index(cs.drop_first());
        assert forall|i: int| 0 <= i < cs.len() implies cond_view_list(cs)[i] == cond_view(
            cs[i],
        ) by {
            if i > 0 {
                assert(cond_view_list(cs)[i] == cond_view_list(cs.drop_first())[i - 1]);
                assert(cs.drop_first()[i - 1] == cs[i]);
            }
        }
    }
}

/// What one predicate says of a string.
pub open spec fn expr_matches(e: ExprModel, s: Seq<char>) -> bool {
    match e {
        ExprModel::RegexMatch(p) => regex_match(p, s),
        ExprModel::Equals(v) => v == s,
        ExprModel::StartsWith(v) => s.len() >= v.len() && s.take(v.len() as int) == v,
        ExprModel::EndsWith(v) => s.len() >= v.len() && s.skip(s.len() - v.len()) == v,
        ExprModel::Contains(v) => seq_has_substring(s, v),
    }
}

/// What a condition says of a string: `And` asks for all parts, `Or` for
/// some part, `Not` negates, `Any` always holds.
pub open spec fn cond_matches(c: CondModel, s: Seq<char>) -> bool
    decreases c,
{
    match c {
        CondModel::And(cs) => all_match(cs, s),
        CondModel::Or(cs) => any_match(cs, s),
        CondModel::Not(b) => !cond_matches(*b, s),
        CondModel::Any => true,
        CondModel::One(e) => expr_matches(e, s),
    }
}

pub open spec fn all_match(cs: Seq<CondModel>, s: Seq<char>) -> bool
    decreases cs,
{
    cs.len() == 0 || (cond_matches(cs[0], s) && all_match(cs.drop_first(), s))
}

pub open spec fn any_match(cs: Seq<CondModel>, s: Seq<char>) -> bool
    decreases cs,
{
    cs.len() != 0 && (cond_matches(cs[0], s) || any_match(cs.drop_first(), s))
}

pub proof fn lemma_all_match_iff(cs: Seq<CondModel>, s: Seq<char>)
    ensures
        all_match(cs, s) <==> (forall|i: int|
            0 <= i < cs.len() ==> cond_matches(#[trigger] cs[i], s)),
    decreases cs,
{
    if cs.len() > 0 {
        lemma_all_match_iff(cs.drop_first(), s);
        if all_match(cs, s) {
            assert forall|i: int| 0 <= i < cs.len() implies cond_matches(
                #[trigger] cs[i],
                s,
            ) by {
                if i > 0 {
                    assert(cs.drop_first()[i - 1] == cs[i]);
                }
            }
        } else {
            if cond_matches(cs[0], s) {
                let j = choose|j: int|
                    0 <= j < cs.drop_first().len() && !cond_matches(
                        #[trigger] cs.drop_first()[j],
                        s,
                    );
                assert(cs[j + 1] == cs.drop_first()[j]);
            }
        }
    }
}

pub proof fn lemma_any_match_iff(cs: Seq<CondModel>, s: Seq<char>)
    ensures
        any_match(cs, s) <==> (exists|i: int|
            0 <= i < cs.len() && cond_matches(#[trigger] cs[i], s)),
    decreases cs,
{
    if cs.len() > 0 {
        lemma_any_match_iff(cs.drop_first(), s);
        if any_match(cs, s) {
            if cond_matches(cs[0], s) {
            } else {
                let j = choose|j: int|
                    0 <= j < cs.drop_first().len() && cond_matches(
                        #[trigger] cs.drop_first()[j],
                        s,
                    );
                assert(cs[j + 1] == cs.drop_first()[j]);
                assert(cond_matches(cs[j + 1], s));
            }
        } else {
            assert forall|i: int| 0 <= i < cs.len() implies !cond_matches(
                #[trigger] cs[i],
                s,
            ) by {
                if i > 0 {
                    assert(cs.drop_first()[i - 1] == cs[i]);
                }
            }
        }
    }
}

impl StringExpression {
    /// Evaluate the predicate on `to`.
    pub fn matches(&self, to: &str) -> (r: bool)
        ensures
            r == expr_matches(self@, to@),
    {
        match self {
            StringExpression::RegexMatch { value } => value.is_match(to),
            StringExpression::Equals { value } => str_eq(value.as_str(), to),
            StringExpression::StartsWith { value } => str_starts_with(to, value.as_str()),
            StringExpression::EndsWith { value } => str_ends_with(to, value.as_str()),
            StringExpression::Contains { value } => str_contains(to, value.as_str()),
        }
    }
}

impl Condition {
    /// Evaluate the condition on `to`. `AND` stops at the first false
    /// part, `OR` at the first true one.
    #[verifier::loop_isolation(false)]
    pub fn matches(&self, to: &str) -> (r: bool)
        ensures
            r == cond_matches(self@, to@),
        decreases self,
    {
        match self {
            Condition::ANY => true,
            Condition::ONE(e) => e.matches(to),
            Condition::NOT(b) => {
                proof {
                    assert(decreases_to!(*self => (*self)->NOT_0));
                }
                let inner: &Condition = b;
                !inner.matches(to)
            },
            Condition::AND(cs) => {
                let n = cs.len();
                let mut i: usize = 0;
                proof {
                    lemma_cond_view_list_index(cs@);
                }
                while i < n
                    invariant
                        i <= n,
                        forall|j: int| 0 <= j < i ==> cond_matches(
                            #[trigger] cond_view_list(cs@)[j],
                            to@,
                        ),
                    decreases n - i,
                {
                    proof {
                        assert(decreases_to!(*self => (*self)->AND_0));
                        assert(decreases_to!(cs@ => cs@[i as int]));
                    }
                    if !cs[i].matches(to) {
                        proof {
                            assert(!cond_matches(cond_view_list(cs@)[i as int], to@));
                            lemma_all_match_iff(cond_view_list(cs@), to@);
                        }
                        return false;
                    }
                    i += 1;
                }
                proof {
                    lemma_all_match_iff(cond_view_list(cs@), to@);
                }
                true
            },
            Condition::OR(cs) => {
                let n = cs.len();
                let mut i: usize = 0;
                proof {
                    lemma_cond_view_list_index(cs@);
                }
                while i < n
                    invariant
                        i <= n,
                        forall|j: int| 0 <= j < i ==> !cond_matches(
                            #[trigger] cond_view_list(cs@)[j],
                            to@,
                        ),
                    decreases n - i,
                {
                    proof {
                        assert(decreases_to!(*self => (*self)->OR_0));
                        assert(decreases_to!(cs@ => cs@[i as int]));
                    }
                    if cs[i].matches(to) {
                        proof {
                            let l = cond_view_list(cs@);
                            assert(0 <= i < l.len());
                            assert(cond_matches(l[i as int], to@));
                            assert(exists|j: int| 0 <= j < l.len() && cond_matches(
                                #[trigger] l[j],
                                to@,
                            ));
                            lemma_any_match_iff(l, to@);
                        }
                        return true;
                    }
                    i += 1;
                }
                proof {
                    lemma_any_match_iff(cond_view_list(cs@), to@);
                }
                false
            },
        }
    }
}


// ------------------------------------------------------------------
// Equality and cloning
// ------------------------------------------------------------------

/// Structural equality of predicates; a regex counts as its pattern.
fn expr_eq(x: &StringExpression, y: &StringExpression) -> (r: bool)
    ensures
        r == (x@ == y@),
{
    match (x, y) {
        (
            StringExpression::RegexMatch { value: a },
            StringExpression::RegexMatch { value: b },
        ) => str_eq(a.as_str(), b.as_str()),
        (StringExpression::Equals { value: a }, StringExpression::Equals { value: b }) => str_eq(
            a.as_str(),
            b.as_str(),
        ),
        (
            StringExpression::StartsWith { value: a },
            StringExpression::StartsWith { value: b },
        ) => str_eq(a.as_str(), b.as_str()),
        (StringExpression::EndsWith { value: a }, StringExpression::EndsWith { value: b }) => str_eq(
            a.as_str(),
            b.as_str(),
        ),
        (StringExpression::Contains { value: a }, StringExpression::Contains { value: b }) => str_eq(
            a.as_str(),
            b.as_str(),
        ),
        _ => false,
    }
}

/// Structural equality of conditions.
#[verifier::loop_isolation(false)]
fn cond_eq(x: &Condition, y: &Condition) -> (r: bool)
    ensures
        r == (x@ == y@),
    decreases x,
{
    match (x, y) {
        (Condition::ANY, Condition::ANY) => true,
        (Condition::ONE(a), Condition::ONE(b)) => expr_eq(a, b),
        (Condition::NOT(a), Condition::NOT(b)) => {
            proof {
                assert(decreases_to!(*x => (*x)->NOT_0));
            }
            let ia: &Condition = a;
            let ib: &Condition = b;
            let r = cond_eq(ia, ib);
            proof {
                assert(x@ == CondModel::Not(Box::new(cond_view(*ia))));
                assert(y@ == CondModel::Not(Box::new(cond_view(*ib))));
            }
            r
        },
        (Condition::AND(a), Condition::AND(b)) => {
            proof {
                assert(decreases_to!(*x => (*x)->AND_0));
                assert((*x)->AND_0 == *a);
                assert(decreases_to!(*a => a@));
            }
            cond_vec_eq(a, b)
        },
        (Condition::OR(a), Condition::OR(b)) => {
            proof {
                assert(decreases_to!(*x => (*x)->OR_0));
                assert((*x)->OR_0 == *a);
                assert(decreases_to!(*a => a@));
            }
            cond_vec_eq(a, b)
        },
        _ => false,
    }
}

/// Elementwise equality of two condition lists.
#[verifier::loop_isolation(false)]
fn cond_vec_eq(a: &Vec<Condition>, b: &Vec<Condition>) -> (r: bool)
    ensures
        r == (cond_view_list(a@) == cond_view_list(b@)),
    decreases a@,
{
    proof {
        lemma_cond_view_list_index(a@);
        lemma_cond_view_list_index(b@);
    }
    if a.len() != b.len() {
        proof {
            assert(cond_view_list(a@).len() != cond_view_list(b@).len());
        }
        return false;
    }
    let n = a.len();
    let mut i: usize = 0;
    while i < n
        invariant
            i <= n,
            forall|j: int| 0 <= j < i ==> cond_view_list(a@)[j] == cond_view_list(b@)[j],
        decreases n - i,
    {
        proof {
            assert(decreases_to!(a@ => a@[i as int]));
        }
        if !cond_eq(&a[i], &b[i]) {
            proof {
                assert(cond_view_list(a@)[i as int] != cond_view_list(b@)[i as int]);
            }
            return false;
        }
        i += 1;
    }
    proof {
        assert(cond_view_list(a@) =~= cond_view_list(b@));
    }
    true
}

impl PartialEq for StringExpression {
    fn eq(&self, other: &Self) -> (r: bool) {
        expr_eq(self, other)
    }
}

impl vstd::std_specs::cmp::PartialEqSpecImpl for StringExpression {
    open spec fn obeys_eq_spec() -> bool {
        true
    }

    open spec fn eq_spec(&self, other: &Self) -> bool {
        self@ == other@
    }
}

impl PartialEq for Condition {
    fn eq(&self, other: &Self) -> (r: bool) {
        cond_eq(self, other)
    }
}

impl vstd::std_specs::cmp::PartialEqSpecImpl for Condition {
    open spec fn obeys_eq_spec() -> bool {
        true
    }

    open spec fn eq_spec(&self, other: &Self) -> bool {
        self@ == other@
    }
}

impl Clone for StringExpression {
    /// The clone has the same shape and pattern.
    fn clone(&self) -> (r: Self)
        ensures
            r@ == self@,
    {
        match self {
            StringExpression::RegexMatch { value } => StringExpression::RegexMatch {
                value: value.clone(),
            },
            StringExpression::Equals { value } => StringExpression::Equals {
                value: value.clone(),
            },
            StringExpression::StartsWith { value } => StringExpression::StartsWith {
                value: value.clone(),
            },
            StringExpression::EndsWith { value } => StringExpression::EndsWith {
                value: value.clone(),
            },
            StringExpression::Contains { value } => StringExpression::Contains {
                value: value.clone(),
            },
        }
    }
}

impl Clone for Condition {
    /// The clone has the same shape.
    #[verifier::loop_isolation(false)]
    fn clone(&self) -> (r: Self)
        ensures
            r@ == self@,
        decreases self,
    {
        match self {
            Condition::ANY => Condition::ANY,
            Condition::ONE(e) => Condition::ONE(e.clone()),
            Condition::NOT(b) => {
                proof {
                    assert(decreases_to!(*self => (*self)->NOT_0));
                }
                let inner: &Condition = b;
                Condition::NOT(Box::new(inner.clone()))
            },
            Condition::AND(cs) => {
                let n = cs.len();
                let mut out: Vec<Condition> = Vec::new();
                let mut i: usize = 0;
                proof {
                    lemma_cond_view_list_index(cs@);
                }
                while i < n
                    invariant
                        i <= n,
                        out@.len() == i,
                        forall|j: int| 0 <= j < i ==> cond_view(#[trigger] out@[j]) == cond_view(
                            cs@[j],
                        ),
                    decreases n - i,
                {
                    proof {
                        assert(decreases_to!(*self => (*self)->AND_0));
                        assert(decreases_to!(cs@ => cs@[i as int]));
                    }
                    out.push(cs[i].clone());
                    i += 1;
                }
                proof {
                    lemma_cond_view_list_index(out@);
                    assert(cond_view_list(out@) =~= cond_view_list(cs@));
                }
                Condition::AND(out)
            },
            Condition::OR(cs) => {
                let n = cs.len();
                let mut out: Vec<Condition> = Vec::new();
                let mut i: usize = 0;
                proof {
                    lemma_cond_view_list_index(cs@);
                }
                while i < n
                    invariant
                        i <= n,
                        out@.len() == i,
                        forall|j: int| 0 <= j < i ==> cond_view(#[trigger] out@[j]) == cond_view(
                            cs@[j],
                        ),
                    decreases n - i,
                {
                    proof {
                        assert(decreases_to!(*self => (*self)->OR_0));
                        assert(decreases_to!(cs@ => cs@[i as int]));
                    }
                    out.push(cs[i].clone());
                    i += 1;
                }
                proof {
                    lemma_cond_view_list_index(out@);
                    assert(cond_view_list(out@) =~= cond_view_list(cs@));
                }
                Condition::OR(out)
            },
        }
    }
}


// ------------------------------------------------------------------
// The JSON shape of conditions
// ------------------------------------------------------------------

/// The tag a predicate carries in its serialized form.
pub open spec fn expr_tag(e: ExprModel) -> Seq<char> {
    match e {
        ExprModel::RegexMatch(_) => "regexMatch"@,
        ExprModel::Equals(_) => "equals"@,
        ExprModel::StartsWith(_) => "startsWith"@,
        ExprModel::EndsWith(_) => "endsWith"@,
        ExprModel::Contains(_) => "contains"@,
    }
}

pub open spec fn expr_value(e: ExprModel) -> Seq<char> {
    match e {
        ExprModel::RegexMatch(v) => v,
        ExprModel::Equals(v) => v,
        ExprModel::StartsWith(v) => v,
        ExprModel::EndsWith(v) => v,
        ExprModel::Contains(v) => v,
    }
}

pub open spec fn expr_to_jm(e: ExprModel) -> JsonModel {
    JsonModel::Obj(
        seq![
            ("type"@, JsonModel::Text(expr_tag(e))),
            ("value"@, JsonModel::Text(expr_value(e))),
        ],
    )
}

pub open spec fn cond_to_jm(c: CondModel) -> JsonModel
    decreases c,
{
    match c {
        CondModel::Any => JsonModel::Text("any"@),
        CondModel::One(e) => expr_to_jm(e),
        CondModel::And(cs) => JsonModel::Obj(
            seq![("and"@, JsonModel::Arr(cond_list_to_jm(cs)))],
        ),
        CondModel::Or(cs) => JsonModel::Obj(seq![("or"@, JsonModel::Arr(cond_list_to_jm(cs)))]),
        CondModel::Not(b) => JsonModel::Obj(seq![("not"@, cond_to_jm(*b))]),
    }
}

pub open spec fn cond_list_to_jm(cs: Seq<CondModel>) -> Seq<JsonModel>
    decreases cs,
{
    if cs.len() == 0 {
        Seq::empty()
    } else {
        seq![cond_to_jm(cs[0])] + cond_list_to_jm(cs.drop_first())
    }
}

pub proof fn lemma_cond_list_to_jm_index(cs: Seq<CondModel>)
    ensures
        cond_list_to_jm(cs).len() == cs.len(),
        forall|i: int| 0 <= i < cs.len() ==> cond_list_to_jm(cs)[i] == cond_to_jm(cs[i]),
    decreases cs,
{
    if cs.len() > 0 {
        lemma_cond_list_to_jm_index(cs.drop_first());
        assert forall|i: int| 0 <= i < cs.len() implies cond_list_to_jm(cs)[i] == cond_to_jm(
            cs[i],
        ) by {
            if i > 0 {
                assert(cond_list_to_jm(cs)[i] == cond_list_to_jm(cs.drop_first())[i - 1]);
                assert(cs.drop_first()[i - 1] == cs[i]);
            }
        }
    }
}

/// Reading a tagged predicate back; a regex pattern must compile.
pub open spec fn expr_from_tag(k: Seq<char>, v: Seq<char>) -> Option<ExprModel> {
    if k == "regexMatch"@ {
        if regex_compiles(v) {
            Some(ExprModel::RegexMatch(v))
        } else {
            None
        }
    } else if k == "equals"@ {
        Some(ExprModel::Equals(v))
    } else if k == "startsWith"@ {
        Some(ExprModel::StartsWith(v))
    } else if k == "endsWith"@ {
        Some(ExprModel::EndsWith(v))
    } else if k == "contains"@ {
        Some(ExprModel::Contains(v))
    } else {
        None
    }
}

pub open spec fn cond_from_jm(m: JsonModel) -> Option<CondModel>
    decreases m, 0int,
{
    match m {
        JsonModel::Text(t) => if t == "any"@ {
            Some(CondModel::Any)
        } else {
            None
        },
        JsonModel::Obj(fs) => {
            if fs.len() == 1 && fs[0].0 == "and"@ {
                match fs[0].1 {
                    JsonModel::Arr(ms) => match cond_list_from_jm(ms) {
                        Some(cs) => Some(CondModel::And(cs)),
                        None => None,
                    },
                    _ => None,
                }
            } else if fs.len() == 1 && fs[0].0 == "or"@ {
                match fs[0].1 {
                    JsonModel::Arr(ms) => match cond_list_from_jm(ms) {
                        Some(cs) => Some(CondModel::Or(cs)),
                        None => None,
                    },
                    _ => None,
                }
            } else if fs.len() == 1 && fs[0].0 == "not"@ {
                match cond_from_jm(fs[0].1) {
                    Some(c) => Some(CondModel::Not(Box::new(c))),
                    None => None,
                }
            } else if fs.len() == 2 && fs[0].0 == "type"@ && fs[1].0 == "value"@ {
                match (fs[0].1, fs[1].1) {
                    (JsonModel::Text(k), JsonModel::Text(v)) => match expr_from_tag(k, v) {
                        Some(e) => Some(CondModel::One(e)),
                        None => None,
                    },
                    _ => None,
                }
            } else {
                None
            }
        },
        _ => None,
    }
}

pub open spec fn cond_list_from_jm(ms: Seq<JsonModel>) -> Option<Seq<CondModel>>
    decreases ms, 0int,
{
    if ms.len() == 0 {
        Some(Seq::empty())
    } else {
        match cond_from_jm(ms[0]) {
            Some(c) => match cond_list_from_jm(ms.drop_first()) {
                Some(cs) => Some(seq![c] + cs),
                None => None,
            },
            None => None,
        }
    }
}

/// Conditions whose regex patterns all compile; every condition built by
/// this library satisfies it.
pub open spec fn cond_wf(c: CondModel) -> bool
    decreases c,
{
    match c {
        CondModel::Any => true,
        CondModel::One(e) => match e {
            ExprModel::RegexMatch(p) => regex_compiles(p),
            _ => true,
        },
        CondModel::And(cs) => cond_list_wf(cs),
        CondModel::Or(cs) => cond_list_wf(cs),
        CondModel::Not(b) => cond_wf(*b),
    }
}

pub open spec fn cond_list_wf(cs: Seq<CondModel>) -> bool
    decreases cs,
{
    if cs.len() == 0 {
        true
    } else {
        cond_wf(cs[0]) && cond_list_wf(cs.drop_first())
    }
}

/// The serialized keys and tags are pairwise distinct.
proof fn lemma_cond_keys_distinct()
    ensures
        "any"@ != "and"@ && "any"@ != "or"@ && "any"@ != "not"@,
        "and"@ != "or"@ && "and"@ != "not"@ && "or"@ != "not"@,
        "type"@ != "and"@ && "type"@ != "or"@ && "type"@ != "not"@ && "type"@ != "value"@,
        "value"@ != "and"@ && "value"@ != "or"@ && "value"@ != "not"@,
        "regexMatch"@ != "equals"@ && "regexMatch"@ != "startsWith"@ && "regexMatch"@
            != "endsWith"@ && "regexMatch"@ != "contains"@,
        "equals"@ != "startsWith"@ && "equals"@ != "endsWith"@ && "equals"@ != "contains"@,
        "startsWith"@ != "endsWith"@ && "startsWith"@ != "contains"@,
        "endsWith"@ != "contains"@,
{
    reveal_strlit("any");
    reveal_strlit("and");
    reveal_strlit("or");
    reveal_strlit("not");
    reveal_strlit("type");
    reveal_strlit("value");
    reveal_strlit("regexMatch");
    reveal_strlit("equals");
    reveal_strlit("startsWith");
    reveal_strlit("endsWith");
    reveal_strlit("contains");
    assert("any"@.len() == 3 && "and"@.len() == 3 && "or"@.len() == 2 && "not"@.len() == 3);
    assert("type"@.len() == 4 && "value"@.len() == 5);
    assert("regexMatch"@.len() == 10 && "equals"@.len() == 6 && "startsWith"@.len() == 10);
    assert("endsWith"@.len() == 8 && "contains"@.len() == 8);
    assert("any"@[0] == 'a' && "and"@[0] == 'a' && "not"@[0] == 'n');
    assert("any"@[2] == 'y' && "and"@[2] == 'd');
    assert("regexMatch"@[0] == 'r' && "startsWith"@[0] == 's');
    assert("endsWith"@[0] == 'e' && "contains"@[0] == 'c');
}

pub proof fn lemma_expr_tag_roundtrip(e: ExprModel)
    requires
        (e matches ExprModel::RegexMatch(p) ==> regex_compiles(p)),
    ensures
        expr_from_tag(expr_tag(e), expr_value(e)) == Some(e),
{
    lemma_cond_keys_distinct();
}

/// Serializing a condition to its JSON shape and reading it back yields
/// the same condition, provided its regex patterns compile.
pub proof fn lemma_cond_jm_roundtrip(c: CondModel)
    requires
        cond_wf(c),
    ensures
        cond_from_jm(cond_to_jm(c)) == Some(c),
    decreases c,
{
    lemma_cond_keys_distinct();
    match c {
        CondModel::Any => {},
        CondModel::One(e) => {
            lemma_expr_tag_roundtrip(e);
        },
        CondModel::And(cs) => {
            lemma_cond_list_jm_roundtrip(cs);
        },
        CondModel::Or(cs) => {
            lemma_cond_list_jm_roundtrip(cs);
        },
        CondModel::Not(b) => {
            lemma_cond_jm_roundtrip(*b);
        },
    }
}

proof fn lemma_cond_list_jm_roundtrip(cs: Seq<CondModel>)
    requires
        cond_list_wf(cs),
    ensures
        cond_list_from_jm(cond_list_to_jm(cs)) == Some(cs),
    decreases cs,
{
    if cs.len() == 0 {
        assert(cond_list_to_jm(cs).len() == 0);
    } else {
        lemma_cond_jm_roundtrip(cs[0]);
        lemma_cond_list_jm_roundtrip(cs.drop_first());
        let l = cond_list_to_jm(cs);
        assert(l[0] == cond_to_jm(cs[0]));
        assert(l.drop_first() =~= cond_list_to_jm(cs.drop_first()));
        assert(seq![cs[0]] + cs.drop_first() =~= cs);
    }
}

/// The JSON shape of a well-formed condition is a well-formed document.
pub proof fn lemma_cond_to_jm_wf(c: CondModel)
    ensures
        jm_wf(cond_to_jm(c)),
    decreases c,
{
    match c {
        CondModel::Any => {
            assert(jm_wf(cond_to_jm(c)));
        },
        CondModel::One(e) => {
            let m = cond_to_jm(c);
            let fs = m->Obj_0;
            assert(fs[0].1 == JsonModel::Text(expr_tag(e)));
            assert(jm_wf(fs[0].1));
            let fs1 = fs.drop_first();
            assert(fs1 =~= seq![("value"@, JsonModel::Text(expr_value(e)))]);
            assert(fs1[0].1 == JsonModel::Text(expr_value(e)));
            assert(jm_wf(fs1[0].1));
            assert(fs1.drop_first() =~= Seq::<(Seq<char>, JsonModel)>::empty());
            assert(jm_fields_wf(fs1.drop_first()));
            assert(jm_fields_wf(fs1));
            assert(jm_fields_wf(fs));
            assert(jm_wf(m));
        },
        CondModel::And(cs) => {
            lemma_cond_list_to_jm_wf(cs);
            let m = cond_to_jm(c);
            let fs = m->Obj_0;
            assert(fs.drop_first() =~= Seq::<(Seq<char>, JsonModel)>::empty());
            assert(jm_fields_wf(fs.drop_first()));
            assert(jm_wf(fs[0].1));
            assert(jm_fields_wf(fs));
            assert(jm_wf(cond_to_jm(c)));
        },
        CondModel::Or(cs) => {
            lemma_cond_list_to_jm_wf(cs);
            let m = cond_to_jm(c);
            let fs = m->Obj_0;
            assert(fs.drop_first() =~= Seq::<(Seq<char>, JsonModel)>::empty());
            assert(jm_fields_wf(fs.drop_first()));
            assert(jm_wf(fs[0].1));
            assert(jm_fields_wf(fs));
            assert(jm_wf(cond_to_jm(c)));
        },
        CondModel::Not(b) => {
            lemma_cond_to_jm_wf(*b);
            let m = cond_to_jm(c);
            let fs = m->Obj_0;
            assert(fs.drop_first() =~= Seq::<(Seq<char>, JsonModel)>::empty());
            assert(jm_fields_wf(fs.drop_first()));
            assert(fs[0].1 == cond_to_jm(*b));
            assert(jm_wf(fs[0].1));
            assert(jm_fields_wf(fs));
            assert(jm_wf(cond_to_jm(c)));
        },
    }
}

proof fn lemma_cond_list_to_jm_wf(cs: Seq<CondModel>)
    ensures
        jm_list_wf(cond_list_to_jm(cs)),
    decreases cs,
{
    if cs.len() > 0 {
        lemma_cond_to_jm_wf(cs[0]);
        lemma_cond_list_to_jm_wf(cs.drop_first());
        let l = cond_list_to_jm(cs);
        assert(l[0] == cond_to_jm(cs[0]));
        assert(l.drop_first() =~= cond_list_to_jm(cs.drop_first()));
    }
}


// ------------------------------------------------------------------
// The executable condition codec
// ------------------------------------------------------------------

/// Build the tagged form `{"type": tag, "value": v}`.
fn tagged_value(tag: &str, v: String) -> (r: JsonValue)
    ensures
        r@ == JsonModel::Obj(
            seq![("type"@, JsonModel::Text(tag@)), ("value"@, JsonModel::Text(v@))],
        ),
{
    let mut fields: Vec<(String, JsonValue)> = Vec::new();
    fields.push((String::from_str("type"), JsonValue::Text(String::from_str(tag))));
    fields.push((String::from_str("value"), JsonValue::Text(v)));
    let r = JsonValue::Obj(fields);
    proof {
        crate::json::lemma_jview_fields_index(fields@);
        assert(crate::json::jview_fields(fields@) =~= seq![
            ("type"@, JsonModel::Text(tag@)),
            ("value"@, JsonModel::Text(v@)),
        ]);
    }
    r
}

/// Build the one-field form `{key: inner}`.
fn keyed_value(key: &str, inner: JsonValue) -> (r: JsonValue)
    ensures
        r@ == JsonModel::Obj(seq![(key@, inner@)]),
{
    let ghost inner_model = inner@;
    let mut fields: Vec<(String, JsonValue)> = Vec::new();
    fields.push((String::from_str(key), inner));
    let r = JsonValue::Obj(fields);
    proof {
        crate::json::lemma_jview_fields_index(fields@);
        assert(crate::json::jview_fields(fields@) =~= seq![(key@, inner_model)]);
    }
    r
}

impl StringExpression {
    /// The JSON document this predicate serializes to.
    pub fn to_value(&self) -> (r: JsonValue)
        ensures
            r@ == expr_to_jm(self@),
    {
        match self {
            StringExpression::RegexMatch { value } => tagged_value(
                "regexMatch",
                String::from_str(value.as_str()),
            ),
            StringExpression::Equals { value } => tagged_value("equals", value.clone()),
            StringExpression::StartsWith { value } => tagged_value("startsWith", value.clone()),
            StringExpression::EndsWith { value } => tagged_value("endsWith", value.clone()),
            StringExpression::Contains { value } => tagged_value("contains", value.clone()),
        }
    }

    /// The predicate a tag and value pair deserializes to; a regex
    /// pattern that does not compile is rejected.
    pub fn from_tag(k: &str, v: String) -> (r: Option<StringExpression>)
        ensures
            match r {
                Some(e) => expr_from_tag(k@, v@) == Some(e@),
                None => expr_from_tag(k@, v@) is None,
            },
    {
        if str_eq(k, "regexMatch") {
            match CompiledRegex::new(v) {
                Some(re) => Some(StringExpression::RegexMatch { value: re }),
                None => None,
            }
        } else if str_eq(k, "equals") {
            Some(StringExpression::Equals { value: v })
        } else if str_eq(k, "startsWith") {
            Some(StringExpression::StartsWith { value: v })
        } else if str_eq(k, "endsWith") {
            Some(StringExpression::EndsWith { value: v })
        } else if str_eq(k, "contains") {
            Some(StringExpression::Contains { value: v })
        } else {
            None
        }
    }
}

impl Condition {
    /// The JSON document this condition serializes to.
    #[verifier::loop_isolation(false)]
    pub fn to_value(&self) -> (r: JsonValue)
        ensures
            r@ == cond_to_jm(self@),
        decreases self,
    {
        match self {
            Condition::ANY => {
                let r = JsonValue::Text(String::from_str("any"));
                r
            },
            Condition::ONE(e) => e.to_value(),
            Condition::NOT(b) => {
                proof {
                    assert(decreases_to!(*self => (*self)->NOT_0));
                }
                let inner: &Condition = b;
                keyed_value("not", inner.to_value())
            },
            Condition::AND(cs) => {
                let elems = cond_vec_to_values(cs);
                keyed_value("and", JsonValue::Arr(elems))
            },
            Condition::OR(cs) => {
                let elems = cond_vec_to_values(cs);
                keyed_value("or", JsonValue::Arr(elems))
            },
        }
    }

    /// The condition a JSON document deserializes to.
    #[verifier::loop_isolation(false)]
    pub fn from_value(v: &JsonValue) -> (r: Option<Condition>)
        ensures
            match r {
                Some(c) => cond_from_jm(v@) == Some(c@),
                None => cond_from_jm(v@) is None,
            },
        decreases v,
    {
        match v {
            JsonValue::Text(t) => {
                if str_eq(t.as_str(), "any") {
                    Some(Condition::ANY)
                } else {
                    None
                }
            },
            JsonValue::Obj(fields) => {
                proof {
                    crate::json::lemma_jview_fields_index(fields@);
                }
                if fields.len() == 1 {
                    let key = &fields[0].0;
                    let inner = &fields[0].1;
                    proof {
                        assert(v@->Obj_0[0] == (key@, inner@));
                    }
                    if str_eq(key.as_str(), "and") || str_eq(key.as_str(), "or") {
                        let is_and = str_eq(key.as_str(), "and");
                        proof {
                            lemma_cond_keys_distinct();
                        }
                        match inner {
                            JsonValue::Arr(ms) => {
                                proof {
                                    assert(decreases_to!(*v => (*v)->Obj_0));
                                    assert(decreases_to!((*v)->Obj_0 => fields@));
                                }
                                match cond_vec_from_values(v, ms) {
                                    Some(cs) => {
                                        if is_and {
                                            Some(Condition::AND(cs))
                                        } else {
                                            Some(Condition::OR(cs))
                                        }
                                    },
                                    None => None,
                                }
                            },
                            _ => None,
                        }
                    } else if str_eq(key.as_str(), "not") {
                        proof {
                            lemma_cond_keys_distinct();
                            assert(decreases_to!(*v => (*v)->Obj_0));
                            assert((*v)->Obj_0 == *fields);
                            assert(decreases_to!(*fields => fields@));
                            assert(decreases_to!(fields@ => fields@[0]));
                            assert(decreases_to!(fields@[0] => fields@[0].1));
                        }
                        match Condition::from_value(inner) {
                            Some(c) => Some(Condition::NOT(Box::new(c))),
                            None => None,
                        }
                    } else {
                        proof {
                            lemma_cond_keys_distinct();
                        }
                        None
                    }
                } else if fields.len() == 2 {
                    let k0 = &fields[0].0;
                    let k1 = &fields[1].0;
                    proof {
                        assert(v@->Obj_0[0] == (fields@[0].0@, jview(fields@[0].1)));
                        assert(v@->Obj_0[1] == (fields@[1].0@, jview(fields@[1].1)));
                    }
                    if str_eq(k0.as_str(), "type") && str_eq(k1.as_str(), "value") {
                        match (&fields[0].1, &fields[1].1) {
                            (JsonValue::Text(k), JsonValue::Text(val)) => {
                                match StringExpression::from_tag(k.as_str(), val.clone()) {
                                    Some(e) => Some(Condition::ONE(e)),
                                    None => None,
                                }
                            },
                            _ => None,
                        }
                    } else {
                        None
                    }
                } else {
                    None
                }
            },
            _ => None,
        }
    }

    /// The condition rendered as compact JSON text.
    pub fn to_json(&self) -> (r: String)
        ensures
            r@ == jtext(cond_to_jm(self@)),
    {
        crate::json::json_to_string(&self.to_value())
    }

    /// Read a condition from JSON text.
    pub fn from_json(s: &str) -> (r: Option<Condition>)
        ensures
            match r {
                Some(c) => cond_from_text(s@) == Some(c@),
                None => cond_from_text(s@) is None,
            },
    {
        match crate::json::json_from_str(s) {
            Some(v) => Condition::from_value(&v),
            None => None,
        }
    }
}

/// Serialize each condition of a list.
#[verifier::loop_isolation(false)]
fn cond_vec_to_values(cs: &Vec<Condition>) -> (r: Vec<JsonValue>)
    ensures
        jview_list(r@) == cond_list_to_jm(cond_view_list(cs@)),
    decreases cs@,
{
    let n = cs.len();
    let mut out: Vec<JsonValue> = Vec::new();
    let mut i: usize = 0;
    proof {
        lemma_cond_view_list_index(cs@);
        lemma_cond_list_to_jm_index(cond_view_list(cs@));
    }
    while i < n
        invariant
            i <= n,
            out@.len() == i,
            forall|j: int| 0 <= j < i ==> jview(#[trigger] out@[j]) == cond_to_jm(
                cond_view_list(cs@)[j],
            ),
        decreases n - i,
    {
        proof {
            assert(decreases_to!(cs@ => cs@[i as int]));
        }
        out.push(cs[i].to_value());
        i += 1;
    }
    proof {
        crate::json::lemma_jview_list_index(out@);
        assert(jview_list(out@) =~= cond_list_to_jm(cond_view_list(cs@)));
    }
    out
}

/// Parse each element of a list of documents; the whole list fails if
/// any element does. The first argument carries the termination measure:
/// it is the document that holds `ms`.
#[verifier::loop_isolation(false)]
fn cond_vec_from_values(owner: &JsonValue, ms: &Vec<JsonValue>) -> (r: Option<Vec<Condition>>)
    requires
        decreases_to!(*owner => ms@),
    ensures
        match r {
            Some(cs) => cond_list_from_jm(jview_list(ms@)) == Some(cond_view_list(cs@)),
            None => cond_list_from_jm(jview_list(ms@)) is None,
        },
    decreases owner, 1int,
{
    let n = ms.len();
    let mut out: Vec<Condition> = Vec::new();
    let mut i: usize = 0;
    proof {
        crate::json::lemma_jview_list_index(ms@);
    }
    while i < n
        invariant
            i <= n,
            out@.len() == i,
            forall|j: int| 0 <= j < i ==> cond_from_jm(jview_list(ms@)[j]) == Some(cond_view(
                #[trigger] out@[j],
            )),
        decreases n - i,
    {
        proof {
            assert(decreases_to!(ms@ => ms@[i as int]));
        }
        match Condition::from_value(&ms[i]) {
            Some(c) => {
                out.push(c);
            },
            None => {
                proof {
                    lemma_cond_list_from_jm_fails(jview_list(ms@), i as int);
                }
                return None;
            },
        }
        i += 1;
    }
    proof {
        lemma_cond_view_list_index(out@);
        lemma_cond_list_from_jm_all(jview_list(ms@), cond_view_list(out@));
    }
    Some(out)
}

/// If one element of a list does not parse, the list does not parse.
proof fn lemma_cond_list_from_jm_fails(ms: Seq<JsonModel>, i: int)
    requires
        0 <= i < ms.len(),
        cond_from_jm(ms[i]) is None,
    ensures
        cond_list_from_jm(ms) is None,
    decreases ms,
{
    if ms.len() > 0 {
        if i == 0 {
        } else {
            assert(ms.drop_first()[i - 1] == ms[i]);
            lemma_cond_list_from_jm_fails(ms.drop_first(), i - 1);
        }
    }
}

/// If every element parses to the matching condition, the list parses to
/// the list of them.
proof fn lemma_cond_list_from_jm_all(ms: Seq<JsonModel>, cs: Seq<CondModel>)
    requires
        ms.len() == cs.len(),
        forall|j: int| 0 <= j < ms.len() ==> cond_from_jm(#[trigger] ms[j]) == Some(cs[j]),
    ensures
        cond_list_from_jm(ms) == Some(cs),
    decreases ms,
{
    if ms.len() == 0 {
        assert(cs =~= Seq::<CondModel>::empty());
    } else {
        assert(cond_from_jm(ms[0]) == Some(cs[0]));
        assert forall|j: int| 0 <= j < ms.drop_first().len() implies cond_from_jm(
            #[trigger] ms.drop_first()[j],
        ) == Some(cs.drop_first()[j]) by {
            assert(ms.drop_first()[j] == ms[j + 1]);
            assert(cs.drop_first()[j] == cs[j + 1]);
        }
        lemma_cond_list_from_jm_all(ms.drop_first(), cs.drop_first());
        assert(seq![cs[0]] + cs.drop_first() =~= cs);
    }
}

/// The text a serialized condition parses back from.
pub open spec fn cond_from_text(s: Seq<char>) -> Option<CondModel> {
    match crate::json::jparse_doc(s) {
        Some(m) => cond_from_jm(m),
        None => None,
    }
}

/// Serializing a condition and parsing the text back yields the very
/// same condition, for every condition whose regex patterns compile.
pub proof fn lemma_condition_text_roundtrip(c: CondModel)
    requires
        cond_wf(c),
    ensures
        cond_from_text(jtext(cond_to_jm(c))) == Some(c),
{
    lemma_cond_to_jm_wf(c);
    crate::json::lemma_jparse_doc_jtext(cond_to_jm(c));
    lemma_cond_jm_roundtrip(c);
}

/// The parsed-back condition matches exactly the strings the
/// serialized condition matches.
pub proof fn lemma_condition_roundtrip_matches(c: CondModel, s: Seq<char>)
    requires
        cond_wf(c),
    ensures
        cond_from_text(jtext(cond_to_jm(c))) matches Some(c2) && cond_matches(c2, s)
            == cond_matches(c, s),
{
    lemma_condition_text_roundtrip(c);
}

} // verus!
