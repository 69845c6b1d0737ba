//! Recursive-descent parser for the OWL 2 Functional-Style Syntax.
//!
//! The grammar is specified by the `spec_parse_*` functions, which read a
//! sequence of characters at a position and yield the parsed value and the
//! position after it (with trailing whitespace consumed), or nothing when the
//! input does not match.  Each executable parser is proved to return exactly
//! what its specification says.

use crate::{
    Assertion, Axiom, Class, ClassAxiom, ClassExpression, DataProperty, DataPropertyAxiom,
    DataRange, Datatype, Entity, IRI, Individual, Literal, NodeID, ObjectProperty,
    ObjectPropertyAxiom, ObjectPropertyExpression, Ontology, SpecAssertion, SpecAxiom,
    SpecClassAxiom, SpecClassExpr, SpecDataPropertyAxiom, SpecDataRange, SpecEntity,
    SpecIndividual, SpecLiteral, SpecObjectPropertyAxiom, SpecObjectPropertyExpr, SpecOntology,
    spec_ce_seq, spec_dp_seq, spec_individual_seq, spec_iri_seq, spec_literal_seq, spec_ope_seq,
    spec_axiom_seq, lemma_spec_ce_seq, lemma_spec_ope_seq,
};
use vstd::prelude::*;
use vstd::string::StrSliceExecFns;

verus! {

/// Whitespace characters of the surface syntax.
pub open spec fn is_ws_char(c: char) -> bool {
    c == ' ' || c == '\t' || c == '\r' || c == '\n'
}

/// Characters that may form a keyword.
pub open spec fn is_alpha_char(c: char) -> bool {
    ('a' <= c && c <= 'z') || ('A' <= c && c <= 'Z')
}

/// Decimal digits.
pub open spec fn is_digit_char(c: char) -> bool {
    '0' <= c && c <= '9'
}

/// Characters allowed in a language tag after `@`.
pub open spec fn is_lang_char(c: char) -> bool {
    is_alpha_char(c) || is_digit_char(c) || c == '-'
}

/// Characters allowed in a prefix name.
pub open spec fn is_pname_char(c: char) -> bool {
    is_alpha_char(c) || is_digit_char(c) || c == '_' || c == '-'
}

/// Position after the run of whitespace and `#` comments starting at `p`.
pub open spec fn spec_ws(s: Seq<char>, p: int) -> int
    decreases s.len() - p,
{
    if p < 0 || p >= s.len() {
        p
    } else if is_ws_char(s[p]) {
        spec_ws(s, p + 1)
    } else if s[p] == '#' {
        spec_ws_comment(s, p + 1)
    } else {
        p
    }
}

/// Position after the rest of a comment line and any following whitespace.
pub open spec fn spec_ws_comment(s: Seq<char>, p: int) -> int
    decreases s.len() - p,
{
    if p < 0 || p >= s.len() {
        p
    } else if s[p] == '\n' {
        spec_ws(s, p + 1)
    } else {
        spec_ws_comment(s, p + 1)
    }
}

/// Whitespace skipping stays inside the input and never moves backwards.
pub proof fn lemma_spec_ws_bounds(s: Seq<char>, p: int)
    requires
        0 <= p <= s.len(),
    ensures
        p <= spec_ws(s, p) <= s.len(),
    decreases s.len() - p,
{
    if p < s.len() {
        if is_ws_char(s[p]) {
            lemma_spec_ws_bounds(s, p + 1);
        } else if s[p] == '#' {
            lemma_spec_ws_comment_bounds(s, p + 1);
        }
    }
}

/// Comment skipping stays inside the input and never moves backwards.
pub proof fn lemma_spec_ws_comment_bounds(s: Seq<char>, p: int)
    requires
        0 <= p <= s.len(),
    ensures
        p <= spec_ws_comment(s, p) <= s.len(),
    decreases s.len() - p,
{
    if p < s.len() {
        if s[p] == '\n' {
            lemma_spec_ws_bounds(s, p + 1);
        } else {
            lemma_spec_ws_comment_bounds(s, p + 1);
        }
    }
}

/// Skips whitespace and comments, following [`spec_ws`].
pub fn skip_ws(s: &str, p: usize) -> (r: usize)
    requires
        p <= s@.len(),
    ensures
        r == spec_ws(s@, p as int),
        p <= r <= s@.len(),
{
    let n = s.unicode_len();
    let mut i = p;
    let mut in_comment = false;
    loop
        invariant
            p <= i <= n,
            n == s@.len(),
            if in_comment {
                spec_ws(s@, p as int) == spec_ws_comment(s@, i as int)
            } else {
                spec_ws(s@, p as int) == spec_ws(s@, i as int)
            },
        decreases n - i,
    {
        if i >= n {
            return i;
        }
        let c = s.get_char(i);
        if in_comment {
            if c == '\n' {
                in_comment = false;
            }
            i = i + 1;
        } else {
            if c == ' ' || c == '\t' || c == '\r' || c == '\n' {
                i = i + 1;
            } else if c == '#' {
                in_comment = true;
                i = i + 1;
            } else {
                return i;
            }
        }
    }
}

/// Whether the characters of `kw` occur in `s` starting at `p`.
pub open spec fn spec_match(s: Seq<char>, p: int, kw: Seq<char>) -> bool {
    &&& 0 <= p
    &&& p + kw.len() <= s.len()
    &&& forall|i: int| 0 <= i < kw.len() ==> s[p + i] == kw[i]
}

/// Compares the input at `p` against a keyword, following [`spec_match`].
pub fn str_match(s: &str, p: usize, kw: &str) -> (r: bool)
    requires
        p <= s@.len(),
    ensures
        r == spec_match(s@, p as int, kw@),
{
    let n = s.unicode_len();
    let kl = kw.unicode_len();
    if kl > n - p {
        return false;
    }
    for i in 0..kl
        invariant
            p + kl <= n,
            n == s@.len(),
            kl == kw@.len(),
            forall|j: int| 0 <= j < i ==> s@[p + j] == kw@[j],
    {
        if s.get_char(p + i) != kw.get_char(i) {
            return false;
        }
    }
    true
}

/// First position at or after `p` whose character is `stop`, or the input
/// length when there is none.
pub open spec fn spec_scan(s: Seq<char>, p: int, stop: char) -> int
    decreases s.len() - p,
{
    if p < 0 || p >= s.len() {
        s.len() as int
    } else if s[p] == stop {
        p
    } else {
        spec_scan(s, p + 1, stop)
    }
}

/// The scan result lies between `p` and the input length, and either points
/// at the stop character or at the end.
pub proof fn lemma_spec_scan(s: Seq<char>, p: int, stop: char)
    requires
        0 <= p <= s.len(),
    ensures
        p <= spec_scan(s, p, stop) <= s.len(),
        spec_scan(s, p, stop) < s.len() ==> s[spec_scan(s, p, stop)] == stop,
    decreases s.len() - p,
{
    if p < s.len() && s[p] != stop {
        lemma_spec_scan(s, p + 1, stop);
    }
}

/// Scans for a stop character, following [`spec_scan`].
pub fn scan_for(s: &str, p: usize, stop: char) -> (r: usize)
    requires
        p <= s@.len(),
    ensures
        r == spec_scan(s@, p as int, stop),
        p <= r <= s@.len(),
{
    let n = s.unicode_len();
    let mut i = p;
    loop
        invariant
            p <= i <= n,
            n == s@.len(),
            spec_scan(s@, p as int, stop) == spec_scan(s@, i as int, stop),
        decreases n - i,
    {
        if i >= n {
            return i;
        }
        if s.get_char(i) == stop {
            return i;
        }
        i = i + 1;
    }
}

/// Parses `<iri-content>`: the content is every character up to the closing
/// angle bracket.  Trailing whitespace is consumed.
pub open spec fn spec_parse_iri(s: Seq<char>, p: int) -> Option<(Seq<char>, int)> {
    if 0 <= p < s.len() && s[p] == '<' {
        let e = spec_scan(s, p + 1, '>');
        if e < s.len() {
            Some((s.subrange(p + 1, e), spec_ws(s, e + 1)))
        } else {
            None
        }
    } else {
        None
    }
}

/// Parses an IRI in angle brackets, following [`spec_parse_iri`].
pub fn parse_iri_at(s: &str, p: usize) -> (r: Option<(IRI, usize)>)
    requires
        p <= s@.len(),
    ensures
        match r {
            Option::None => spec_parse_iri(s@, p as int) is None,
            Option::Some((v, np)) => {
                &&& spec_parse_iri(s@, p as int) == Some((v@, np as int))
                &&& p < np <= s@.len()
            },
        },
{
    let n = s.unicode_len();
    if p >= n || s.get_char(p) != '<' {
        return Option::None;
    }
    let e = scan_for(s, p + 1, '>');
    proof {
        lemma_spec_scan(s@, p as int + 1, '>');
    }
    if e >= n {
        return Option::None;
    }
    let content = s.substring_char(p + 1, e);
    let np = skip_ws(s, e + 1);
    Option::Some((IRI(String::from_str(content)), np))
}

/// Value of the decimal digits `s[p..e)`.
pub open spec fn spec_digits_val(s: Seq<char>, p: int, e: int) -> int
    decreases e - p,
{
    if p >= e {
        0
    } else {
        spec_digits_val(s, p, e - 1) * 10 + (s[e - 1] as int - '0' as int)
    }
}

/// First position at or after `p` whose character is not a decimal digit.
pub open spec fn spec_digits_end(s: Seq<char>, p: int) -> int
    decreases s.len() - p,
{
    if p < 0 || p >= s.len() {
        s.len() as int
    } else if is_digit_char(s[p]) {
        spec_digits_end(s, p + 1)
    } else {
        p
    }
}

/// The digit run ends within the input, and every character before the end
/// is a digit.
pub proof fn lemma_spec_digits_end(s: Seq<char>, p: int)
    requires
        0 <= p <= s.len(),
    ensures
        p <= spec_digits_end(s, p) <= s.len(),
        forall|i: int| p <= i < spec_digits_end(s, p) ==> is_digit_char(s[i]),
        spec_digits_end(s, p) < s.len() ==> !is_digit_char(s[spec_digits_end(s, p)]),
    decreases s.len() - p,
{
    if p < s.len() && is_digit_char(s[p]) {
        lemma_spec_digits_end(s, p + 1);
    }
}

/// Digit values are never negative.
pub proof fn lemma_spec_digits_val_nonneg(s: Seq<char>, p: int, e: int)
    requires
        forall|i: int| p <= i < e ==> is_digit_char(s[i]),
        0 <= p,
        e <= s.len(),
    ensures
        spec_digits_val(s, p, e) >= 0,
    decreases e - p,
{
    if p < e {
        lemma_spec_digits_val_nonneg(s, p, e - 1);
    }
}

/// A longer digit run never has a smaller value.
pub proof fn lemma_spec_digits_val_mono(s: Seq<char>, p: int, e1: int, e2: int)
    requires
        forall|i: int| p <= i < e2 ==> is_digit_char(s[i]),
        0 <= p <= e1 <= e2,
        e2 <= s.len(),
    ensures
        spec_digits_val(s, p, e1) <= spec_digits_val(s, p, e2),
    decreases e2 - e1,
{
    if e1 < e2 {
        lemma_spec_digits_val_mono(s, p, e1, e2 - 1);
        lemma_spec_digits_val_nonneg(s, p, e2 - 1);
    }
}

/// Parses an unsigned decimal number that must fit in 32 bits.  Trailing
/// whitespace is consumed.
pub open spec fn spec_parse_u32(s: Seq<char>, p: int) -> Option<(u32, int)> {
    let e = spec_digits_end(s, p);
    if 0 <= p < s.len() && e > p && spec_digits_val(s, p, e) <= u32::MAX {
        Some((spec_digits_val(s, p, e) as u32, spec_ws(s, e)))
    } else {
        None
    }
}

/// Scans to the end of a digit run, following [`spec_digits_end`].
pub fn digits_end_at(s: &str, p: usize) -> (r: usize)
    requires
        p <= s@.len(),
    ensures
        r == spec_digits_end(s@, p as int),
        p <= r <= s@.len(),
{
    let n = s.unicode_len();
    let mut i = p;
    loop
        invariant
            p <= i <= n,
            n == s@.len(),
            spec_digits_end(s@, p as int) == spec_digits_end(s@, i as int),
        decreases n - i,
    {
        if i >= n {
            return i;
        }
        let c = s.get_char(i);
        if !('0' <= c && c <= '9') {
            return i;
        }
        i = i + 1;
    }
}

/// Parses a cardinality value, following [`spec_parse_u32`].
pub fn parse_u32_at(s: &str, p: usize) -> (r: Option<(u32, usize)>)
    requires
        p <= s@.len(),
    ensures
        match r {
            Option::None => spec_parse_u32(s@, p as int) is None,
            Option::Some((v, np)) => {
                &&& spec_parse_u32(s@, p as int) == Some((v, np as int))
                &&& p < np <= s@.len()
            },
        },
{
    proof {
        lemma_spec_digits_end(s@, p as int);
    }
    let de = digits_end_at(s, p);
    if de == p {
        return Option::None;
    }
    let mut acc: u64 = 0;
    let mut i = p;
    while i < de
        invariant
            p <= i <= de <= s@.len(),
            de == spec_digits_end(s@, p as int),
            forall|k: int| p <= k < de ==> is_digit_char(s@[k]),
            acc == spec_digits_val(s@, p as int, i as int),
            acc <= u32::MAX,
        decreases de - i,
    {
        let c = s.get_char(i);
        let d: u64 = (c as u32 as u64) - 48;
        let next: u64 = acc * 10 + d;
        if next > 0xffff_ffff {
            proof {
                lemma_spec_digits_val_mono(s@, p as int, i as int + 1, de as int);
            }
            return Option::None;
        }
        acc = next;
        i = i + 1;
    }
    let np = skip_ws(s, de);
    Option::Some((acc as u32, np))
}


/// Clamp `p` so that it is strictly greater than `bound`; parse positions
/// always move forward, so this changes nothing on reachable inputs, but it
/// makes the forward movement plain in recursive definitions.
pub open spec fn nxt(s: Seq<char>, bound: int, p: int) -> int {
    if bound < p && p <= s.len() {
        p
    } else {
        bound + 1
    }
}

/// Parses `kw` followed by an opening parenthesis, with whitespace allowed
/// between and after; yields the position after them.
pub open spec fn spec_head(s: Seq<char>, p: int, kw: Seq<char>) -> Option<int> {
    if spec_match(s, p, kw) {
        let q = spec_ws(s, p + kw.len());
        if 0 <= q < s.len() && s[q] == '(' {
            Some(spec_ws(s, q + 1))
        } else {
            None
        }
    } else {
        None
    }
}

/// Matches a keyword head, following [`spec_head`].
pub fn head_at(s: &str, p: usize, kw: &str) -> (r: Option<usize>)
    requires
        p <= s@.len(),
    ensures
        match r {
            Option::None => spec_head(s@, p as int, kw@) is None,
            Option::Some(np) => {
                &&& spec_head(s@, p as int, kw@) == Some(np as int)
                &&& p < np <= s@.len()
            },
        },
{
    let n = s.unicode_len();
    if !str_match(s, p, kw) {
        return Option::None;
    }
    let kl = kw.unicode_len();
    let q = skip_ws(s, p + kl);
    if q < n && s.get_char(q) == '(' {
        Option::Some(skip_ws(s, q + 1))
    } else {
        Option::None
    }
}

/// Parses a closing parenthesis and the whitespace after it.
pub open spec fn spec_close(s: Seq<char>, p: int) -> Option<int> {
    if 0 <= p < s.len() && s[p] == ')' {
        Some(spec_ws(s, p + 1))
    } else {
        None
    }
}

/// Matches a closing parenthesis, following [`spec_close`].
pub fn close_at(s: &str, p: usize) -> (r: Option<usize>)
    requires
        p <= s@.len(),
    ensures
        match r {
            Option::None => spec_close(s@, p as int) is None,
            Option::Some(np) => {
                &&& spec_close(s@, p as int) == Some(np as int)
                &&& p < np <= s@.len()
            },
        },
{
    let n = s.unicode_len();
    if p < n && s.get_char(p) == ')' {
        Option::Some(skip_ws(s, p + 1))
    } else {
        Option::None
    }
}

/// Parses `Keyword ( <iri> )` and yields the IRI content.
pub open spec fn spec_kw_iri(s: Seq<char>, p: int, kw: Seq<char>) -> Option<(Seq<char>, int)> {
    match spec_head(s, p, kw) {
        Some(q) => match spec_parse_iri(s, q) {
            Some((v, q2)) => match spec_close(s, q2) {
                Some(q3) => Some((v, q3)),
                None => None,
            },
            None => None,
        },
        None => None,
    }
}

/// Parses a keyword around a single IRI, following [`spec_kw_iri`].
pub fn kw_iri_at(s: &str, p: usize, kw: &str) -> (r: Option<(IRI, usize)>)
    requires
        p <= s@.len(),
    ensures
        match r {
            Option::None => spec_kw_iri(s@, p as int, kw@) is None,
            Option::Some((v, np)) => {
                &&& spec_kw_iri(s@, p as int, kw@) == Some((v@, np as int))
                &&& p < np <= s@.len()
            },
        },
{
    match head_at(s, p, kw) {
        Option::None => Option::None,
        Option::Some(q) => match parse_iri_at(s, q) {
            Option::None => Option::None,
            Option::Some((v, q2)) => match close_at(s, q2) {
                Option::None => Option::None,
                Option::Some(q3) => Option::Some((v, q3)),
            },
        },
    }
}

/// Parses one entity: a keyword from the six entity categories around an IRI.
pub open spec fn spec_parse_entity(s: Seq<char>, p: int) -> Option<(SpecEntity, int)> {
    match spec_kw_iri(s, p, "Class"@) {
        Some((v, q)) => Some((SpecEntity::Class(v), q)),
        None => match spec_kw_iri(s, p, "Datatype"@) {
            Some((v, q)) => Some((SpecEntity::Datatype(v), q)),
            None => match spec_kw_iri(s, p, "ObjectProperty"@) {
                Some((v, q)) => Some((SpecEntity::ObjectProperty(v), q)),
                None => match spec_kw_iri(s, p, "DataProperty"@) {
                    Some((v, q)) => Some((SpecEntity::DataProperty(v), q)),
                    None => match spec_kw_iri(s, p, "AnnotationProperty"@) {
                        Some((v, q)) => Some((SpecEntity::AnnotationProperty(v), q)),
                        None => match spec_kw_iri(s, p, "NamedIndividual"@) {
                            Some((v, q)) => Some((SpecEntity::NamedIndividual(v), q)),
                            None => None,
                        },
                    },
                },
            },
        },
    }
}

/// Parses an entity, following [`spec_parse_entity`].
pub fn parse_entity_at(s: &str, p: usize) -> (r: Option<(Entity, usize)>)
    requires
        p <= s@.len(),
    ensures
        match r {
            Option::None => spec_parse_entity(s@, p as int) is None,
            Option::Some((v, np)) => {
                &&& spec_parse_entity(s@, p as int) == Some((v@, np as int))
                &&& p < np <= s@.len()
            },
        },
{
    if let Option::Some((v, q)) = kw_iri_at(s, p, "Class") {
        return Option::Some((Entity::Class(Class(v)), q));
    }
    if let Option::Some((v, q)) = kw_iri_at(s, p, "Datatype") {
        return Option::Some((Entity::Datatype(Datatype(v)), q));
    }
    if let Option::Some((v, q)) = kw_iri_at(s, p, "ObjectProperty") {
        return Option::Some((Entity::ObjectProperty(ObjectProperty(v)), q));
    }
    if let Option::Some((v, q)) = kw_iri_at(s, p, "DataProperty") {
        return Option::Some((Entity::DataProperty(DataProperty(v)), q));
    }
    if let Option::Some((v, q)) = kw_iri_at(s, p, "AnnotationProperty") {
        return Option::Some((Entity::AnnotationProperty(v), q));
    }
    if let Option::Some((v, q)) = kw_iri_at(s, p, "NamedIndividual") {
        return Option::Some((Entity::NamedIndividual(v), q));
    }
    Option::None
}

/// Parses `NamedIndividual ( <iri> )` as a named individual.
pub open spec fn spec_parse_named_individual(s: Seq<char>, p: int) -> Option<(
    SpecIndividual,
    int,
)> {
    match spec_kw_iri(s, p, "NamedIndividual"@) {
        Some((v, q)) => Some((SpecIndividual::Named(v), q)),
        None => None,
    }
}

/// Parses a named individual, following [`spec_parse_named_individual`].
pub fn parse_named_individual_at(s: &str, p: usize) -> (r: Option<(Individual, usize)>)
    requires
        p <= s@.len(),
    ensures
        match r {
            Option::None => spec_parse_named_individual(s@, p as int) is None,
            Option::Some((v, np)) => {
                &&& spec_parse_named_individual(s@, p as int) == Some((v@, np as int))
                &&& p < np <= s@.len()
            },
        },
{
    match kw_iri_at(s, p, "NamedIndividual") {
        Option::None => Option::None,
        Option::Some((v, q)) => Option::Some((Individual::Named(v), q)),
    }
}

/// The default datatype of a plain literal.
pub open spec fn spec_xsd_string() -> Seq<char> {
    "http://www.w3.org/2001/XMLSchema#string"@
}

/// First position at or after `p` whose character cannot continue a
/// language tag.
pub open spec fn spec_lang_end(s: Seq<char>, p: int) -> int
    decreases s.len() - p,
{
    if p < 0 || p >= s.len() {
        s.len() as int
    } else if is_lang_char(s[p]) {
        spec_lang_end(s, p + 1)
    } else {
        p
    }
}

/// Scans to the end of a language tag, following [`spec_lang_end`].
pub fn lang_end_at(s: &str, p: usize) -> (r: usize)
    requires
        p <= s@.len(),
    ensures
        r == spec_lang_end(s@, p as int),
        p <= r <= s@.len(),
{
    let n = s.unicode_len();
    let mut i = p;
    loop
        invariant
            p <= i <= n,
            n == s@.len(),
            spec_lang_end(s@, p as int) == spec_lang_end(s@, i as int),
        decreases n - i,
    {
        if i >= n {
            return i;
        }
        let c = s.get_char(i);
        if !(('a' <= c && c <= 'z') || ('A' <= c && c <= 'Z') || ('0' <= c && c <= '9') || c
            == '-') {
            return i;
        }
        i = i + 1;
    }
}

/// Parses a literal: `"value"`, `"value"@lang`, or `"value"^^<datatype>`.
/// A plain or language-tagged literal has the `xsd:string` datatype.
pub open spec fn spec_parse_literal(s: Seq<char>, p: int) -> Option<(SpecLiteral, int)> {
    if 0 <= p < s.len() && s[p] == '"' {
        let e = spec_scan(s, p + 1, '"');
        if e < s.len() {
            let v = s.subrange(p + 1, e);
            let q = e + 1;
            if spec_match(s, q, "^^"@) {
                match spec_parse_iri(s, q + 2) {
                    Some((dt, q2)) => Some(
                        (SpecLiteral { value: v, datatype: dt, lang: None }, q2),
                    ),
                    None => None,
                }
            } else if q < s.len() && s[q] == '@' {
                let le = spec_lang_end(s, q + 1);
                if le > q + 1 {
                    Some(
                        (
                            SpecLiteral {
                                value: v,
                                datatype: spec_xsd_string(),
                                lang: Some(s.subrange(q + 1, le)),
                            },
                            spec_ws(s, le),
                        ),
                    )
                } else {
                    None
                }
            } else {
                Some(
                    (
                        SpecLiteral { value: v, datatype: spec_xsd_string(), lang: None },
                        spec_ws(s, q),
                    ),
                )
            }
        } else {
            None
        }
    } else {
        None
    }
}

/// Parses a literal, following [`spec_parse_literal`].
pub fn parse_literal_at(s: &str, p: usize) -> (r: Option<(Literal, usize)>)
    requires
        p <= s@.len(),
    ensures
        match r {
            Option::None => spec_parse_literal(s@, p as int) is None,
            Option::Some((v, np)) => {
                &&& spec_parse_literal(s@, p as int) == Some((v@, np as int))
                &&& p < np <= s@.len()
            },
        },
{
    let n = s.unicode_len();
    if !(p < n && s.get_char(p) == '"') {
        return Option::None;
    }
    let e = scan_for(s, p + 1, '"');
    proof {
        lemma_spec_scan(s@, p as int + 1, '"');
    }
    if e >= n {
        return Option::None;
    }
    let value = String::from_str(s.substring_char(p + 1, e));
    let q = e + 1;
    proof {
        reveal_strlit("^^");
        assert("^^"@.len() == 2);
    }
    if str_match(s, q, "^^") {
        match parse_iri_at(s, q + 2) {
            Option::None => Option::None,
            Option::Some((dt, q2)) => Option::Some(
                (Literal { value, datatype: Datatype(dt), lang: Option::None }, q2),
            ),
        }
    } else if q < n && s.get_char(q) == '@' {
        let le = lang_end_at(s, q + 1);
        if le > q + 1 {
            let lang = String::from_str(s.substring_char(q + 1, le));
            let np = skip_ws(s, le);
            Option::Some(
                (
                    Literal {
                        value,
                        datatype: Datatype(IRI(String::from_str(
                            "http://www.w3.org/2001/XMLSchema#string",
                        ))),
                        lang: Option::Some(lang),
                    },
                    np,
                ),
            )
        } else {
            Option::None
        }
    } else {
        let np = skip_ws(s, q);
        Option::Some(
            (
                Literal {
                    value,
                    datatype: Datatype(IRI(String::from_str(
                        "http://www.w3.org/2001/XMLSchema#string",
                    ))),
                    lang: Option::None,
                },
                np,
            ),
        )
    }
}


/// Parses one object property expression: a property, `ObjectInverseOf`
/// around a property, or `ObjectPropertyChain` around a list.
pub open spec fn spec_parse_ope(s: Seq<char>, p: int) -> Option<(SpecObjectPropertyExpr, int)>
    decreases s.len() - p, 0int,
{
    if p < 0 || p >= s.len() {
        None
    } else {
    match spec_kw_iri(s, p, "ObjectProperty"@) {
        Some((v, q)) => Some((SpecObjectPropertyExpr::ObjectProperty(v), q)),
        None => match spec_head(s, p, "ObjectInverseOf"@) {
            Some(q) => match spec_kw_iri(s, q, "ObjectProperty"@) {
                Some((v, q2)) => match spec_close(s, q2) {
                    Some(q3) => Some((SpecObjectPropertyExpr::InverseObjectProperty(v), q3)),
                    None => None,
                },
                None => None,
            },
            None => match spec_head(s, p, "ObjectPropertyChain"@) {
                Some(q) => match spec_parse_ope_list(s, nxt(s, p, q)) {
                    Some((ps, q2)) => Some((SpecObjectPropertyExpr::ObjectPropertyChain(ps), q2)),
                    None => None,
                },
                None => None,
            },
        },
    }
    }
}

/// Parses object property expressions up to a closing parenthesis, which is
/// consumed.
pub open spec fn spec_parse_ope_list(s: Seq<char>, p: int) -> Option<(
    Seq<SpecObjectPropertyExpr>,
    int,
)>
    decreases s.len() - p, 1int,
{
    if p < 0 || p >= s.len() {
        None
    } else if s[p] == ')' {
        Some((Seq::empty(), spec_ws(s, p + 1)))
    } else {
        match spec_parse_ope(s, p) {
            Some((e, q)) => match spec_parse_ope_list(s, nxt(s, p, q)) {
                Some((rest, q2)) => Some((rest.insert(0, e), q2)),
                None => None,
            },
            None => None,
        }
    }
}

/// Parses an object property expression, following [`spec_parse_ope`].
pub fn parse_ope_at(s: &str, p: usize) -> (r: Option<(ObjectPropertyExpression, usize)>)
    requires
        p <= s@.len(),
    ensures
        match r {
            Option::None => spec_parse_ope(s@, p as int) is None,
            Option::Some((v, np)) => {
                &&& spec_parse_ope(s@, p as int) == Some((v@, np as int))
                &&& p < np <= s@.len()
            },
        },
    decreases s@.len() - p, 0int,
{
    let n0 = s.unicode_len();
    if p >= n0 {
        return Option::None;
    }
    if let Option::Some((v, q)) = kw_iri_at(s, p, "ObjectProperty") {
        return Option::Some((ObjectPropertyExpression::ObjectProperty(ObjectProperty(v)), q));
    }
    if let Option::Some(q) = head_at(s, p, "ObjectInverseOf") {
        return match kw_iri_at(s, q, "ObjectProperty") {
            Option::None => Option::None,
            Option::Some((v, q2)) => match close_at(s, q2) {
                Option::None => Option::None,
                Option::Some(q3) => Option::Some(
                    (ObjectPropertyExpression::InverseObjectProperty(ObjectProperty(v)), q3),
                ),
            },
        };
    }
    if let Option::Some(q) = head_at(s, p, "ObjectPropertyChain") {
        return match parse_ope_list_at(s, q) {
            Option::None => Option::None,
            Option::Some((ps, q2)) => Option::Some(
                (ObjectPropertyExpression::ObjectPropertyChain(ps), q2),
            ),
        };
    }
    Option::None
}

/// Parses a list of object property expressions, following
/// [`spec_parse_ope_list`].
pub fn parse_ope_list_at(s: &str, p: usize) -> (r: Option<(Vec<ObjectPropertyExpression>, usize)>)
    requires
        p <= s@.len(),
    ensures
        match r {
            Option::None => spec_parse_ope_list(s@, p as int) is None,
            Option::Some((v, np)) => {
                &&& spec_parse_ope_list(s@, p as int) == Some((spec_ope_seq(v@), np as int))
                &&& p < np <= s@.len()
            },
        },
    decreases s@.len() - p, 1int,
{
    let n = s.unicode_len();
    if p >= n {
        return Option::None;
    }
    if s.get_char(p) == ')' {
        let np = skip_ws(s, p + 1);
        let empty: Vec<ObjectPropertyExpression> = Vec::new();
        return Option::Some((empty, np));
    }
    match parse_ope_at(s, p) {
        Option::None => Option::None,
        Option::Some((e, q)) => match parse_ope_list_at(s, q) {
            Option::None => Option::None,
            Option::Some((mut rest, q2)) => {
                let ghost oldrest = rest@;
                rest.insert(0, e);
                proof {
                    lemma_spec_ope_seq(rest@);
                    lemma_spec_ope_seq(oldrest);
                    assert(spec_ope_seq(rest@) =~= spec_ope_seq(oldrest).insert(0, e@));
                }
                Option::Some((rest, q2))
            },
        },
    }
}

/// Parses one class expression.
pub open spec fn spec_parse_ce(s: Seq<char>, p: int) -> Option<(SpecClassExpr, int)>
    decreases s.len() - p, 3int,
{
    if p < 0 || p >= s.len() {
        None
    } else {
    match spec_kw_iri(s, p, "Class"@) {
        Some((v, q)) => Some((SpecClassExpr::Class(v), q)),
        None => match spec_head(s, p, "ObjectIntersectionOf"@) {
            Some(q) => match spec_parse_ce_list(s, nxt(s, p, q)) {
                Some((es, q2)) => Some((SpecClassExpr::ObjectIntersectionOf(es), q2)),
                None => None,
            },
            None => match spec_head(s, p, "ObjectUnionOf"@) {
                Some(q) => match spec_parse_ce_list(s, nxt(s, p, q)) {
                    Some((es, q2)) => Some((SpecClassExpr::ObjectUnionOf(es), q2)),
                    None => None,
                },
                None => match spec_head(s, p, "ObjectComplementOf"@) {
                    Some(q) => match spec_parse_ce(s, nxt(s, p, q)) {
                        Some((e, q2)) => match spec_close(s, q2) {
                            Some(q3) => Some(
                                (SpecClassExpr::ObjectComplementOf(Box::new(e)), q3),
                            ),
                            None => None,
                        },
                        None => None,
                    },
                    None => match spec_head(s, p, "ObjectOneOf"@) {
                        Some(q) => match spec_parse_individual_list(s, q) {
                            Some((is, q2)) => Some((SpecClassExpr::ObjectOneOf(is), q2)),
                            None => None,
                        },
                        None => spec_parse_ce_quantified(s, p),
                    },
                },
            },
        },
    }
    }
}

/// Parses the quantified and cardinality class expressions; the boolean ones
/// are handled by [`spec_parse_ce`].
pub open spec fn spec_parse_ce_quantified(s: Seq<char>, p: int) -> Option<(SpecClassExpr, int)>
    decreases s.len() - p, 2int,
{
    if p < 0 || p >= s.len() {
        None
    } else {
    match spec_head(s, p, "ObjectSomeValuesFrom"@) {
        Some(q) => match spec_parse_ope(s, q) {
            Some((pr, q2)) => match spec_parse_ce(s, nxt(s, p, q2)) {
                Some((f, q3)) => match spec_close(s, q3) {
                    Some(q4) => Some(
                        (
                            SpecClassExpr::ObjectSomeValuesFrom {
                                property: pr,
                                filler: Box::new(f),
                            },
                            q4,
                        ),
                    ),
                    None => None,
                },
                None => None,
            },
            None => None,
        },
        None => match spec_head(s, p, "ObjectAllValuesFrom"@) {
            Some(q) => match spec_parse_ope(s, q) {
                Some((pr, q2)) => match spec_parse_ce(s, nxt(s, p, q2)) {
                    Some((f, q3)) => match spec_close(s, q3) {
                        Some(q4) => Some(
                            (
                                SpecClassExpr::ObjectAllValuesFrom {
                                    property: pr,
                                    filler: Box::new(f),
                                },
                                q4,
                            ),
                        ),
                        None => None,
                    },
                    None => None,
                },
                None => None,
            },
            None => match spec_head(s, p, "ObjectHasValue"@) {
                Some(q) => match spec_parse_ope(s, q) {
                    Some((pr, q2)) => match spec_parse_named_individual(s, q2) {
                        Some((v, q3)) => match spec_close(s, q3) {
                            Some(q4) => Some(
                                (SpecClassExpr::ObjectHasValue { property: pr, value: v }, q4),
                            ),
                            None => None,
                        },
                        None => None,
                    },
                    None => None,
                },
                None => match spec_head(s, p, "ObjectHasSelf"@) {
                    Some(q) => match spec_parse_ope(s, q) {
                        Some((pr, q2)) => match spec_close(s, q2) {
                            Some(q3) => Some((SpecClassExpr::ObjectHasSelf(pr), q3)),
                            None => None,
                        },
                        None => None,
                    },
                    None => spec_parse_ce_cardinality(s, p),
                },
            },
        },
    }
    }
}

/// Parses the three cardinality class expressions.
pub open spec fn spec_parse_ce_cardinality(s: Seq<char>, p: int) -> Option<(SpecClassExpr, int)>
    decreases s.len() - p, 1int,
{
    if p < 0 || p >= s.len() {
        None
    } else {
    match spec_head(s, p, "ObjectMinCardinality"@) {
        Some(q) => match spec_parse_cardinality_body(s, p, q) {
            Some((m, pr, f, q2)) => Some(
                (SpecClassExpr::ObjectMinCardinality { min: m, property: pr, filler: f }, q2),
            ),
            None => None,
        },
        None => match spec_head(s, p, "ObjectMaxCardinality"@) {
            Some(q) => match spec_parse_cardinality_body(s, p, q) {
                Some((m, pr, f, q2)) => Some(
                    (SpecClassExpr::ObjectMaxCardinality { max: m, property: pr, filler: f }, q2),
                ),
                None => None,
            },
            None => match spec_head(s, p, "ObjectExactCardinality"@) {
                Some(q) => match spec_parse_cardinality_body(s, p, q) {
                    Some((m, pr, f, q2)) => Some(
                        (
                            SpecClassExpr::ObjectExactCardinality {
                                cardinality: m,
                                property: pr,
                                filler: f,
                            },
                            q2,
                        ),
                    ),
                    None => None,
                },
                None => None,
            },
        },
    }
    }
}

/// Parses `n P [C] )` after a cardinality keyword: the bound, the property,
/// the optional filler, and the closing parenthesis.
pub open spec fn spec_parse_cardinality_body(s: Seq<char>, p: int, q: int) -> Option<(
    u32,
    SpecObjectPropertyExpr,
    Option<Box<SpecClassExpr>>,
    int,
)>
    decreases s.len() - p, 0int,
{
    if p < 0 || p >= s.len() {
        None
    } else {
    match spec_parse_u32(s, q) {
        Some((m, q1)) => match spec_parse_ope(s, q1) {
            Some((pr, q2)) => if 0 <= q2 < s.len() && s[q2] == ')' {
                Some((m, pr, None, spec_ws(s, q2 + 1)))
            } else {
                match spec_parse_ce(s, nxt(s, p, q2)) {
                    Some((f, q3)) => match spec_close(s, q3) {
                        Some(q4) => Some((m, pr, Some(Box::new(f)), q4)),
                        None => None,
                    },
                    None => None,
                }
            },
            None => None,
        },
        None => None,
    }
    }
}

/// Parses class expressions up to a closing parenthesis, which is consumed.
pub open spec fn spec_parse_ce_list(s: Seq<char>, p: int) -> Option<(Seq<SpecClassExpr>, int)>
    decreases s.len() - p, 4int,
{
    if p < 0 || p >= s.len() {
        None
    } else if s[p] == ')' {
        Some((Seq::empty(), spec_ws(s, p + 1)))
    } else {
        match spec_parse_ce(s, p) {
            Some((e, q)) => match spec_parse_ce_list(s, nxt(s, p, q)) {
                Some((rest, q2)) => Some((rest.insert(0, e), q2)),
                None => None,
            },
            None => None,
        }
    }
}

/// Parses named individuals up to a closing parenthesis, which is consumed.
pub open spec fn spec_parse_individual_list(s: Seq<char>, p: int) -> Option<(
    Seq<SpecIndividual>,
    int,
)>
    decreases s.len() - p,
{
    if p < 0 || p >= s.len() {
        None
    } else if s[p] == ')' {
        Some((Seq::empty(), spec_ws(s, p + 1)))
    } else {
        match spec_parse_named_individual(s, p) {
            Some((e, q)) => match spec_parse_individual_list(s, nxt(s, p, q)) {
                Some((rest, q2)) => Some((rest.insert(0, e), q2)),
                None => None,
            },
            None => None,
        }
    }
}

/// Parses a list of named individuals, following
/// [`spec_parse_individual_list`].
pub fn parse_individual_list_at(s: &str, p: usize) -> (r: Option<(Vec<Individual>, usize)>)
    requires
        p <= s@.len(),
    ensures
        match r {
            Option::None => spec_parse_individual_list(s@, p as int) is None,
            Option::Some((v, np)) => {
                &&& spec_parse_individual_list(s@, p as int) == Some(
                    (spec_individual_seq(v@), np as int),
                )
                &&& p < np <= s@.len()
            },
        },
    decreases s@.len() - p,
{
    let n = s.unicode_len();
    if p >= n {
        return Option::None;
    }
    if s.get_char(p) == ')' {
        let np = skip_ws(s, p + 1);
        let empty: Vec<Individual> = Vec::new();
        assert(spec_individual_seq(empty@) =~= Seq::<SpecIndividual>::empty());
        return Option::Some((empty, np));
    }
    match parse_named_individual_at(s, p) {
        Option::None => Option::None,
        Option::Some((e, q)) => match parse_individual_list_at(s, q) {
            Option::None => Option::None,
            Option::Some((mut rest, q2)) => {
                let ghost oldrest = rest@;
                rest.insert(0, e);
                proof {
                    assert(spec_individual_seq(rest@) =~= spec_individual_seq(oldrest).insert(
                        0,
                        e@,
                    ));
                }
                Option::Some((rest, q2))
            },
        },
    }
}

/// Parses a class expression, following [`spec_parse_ce`].
pub fn parse_ce_at(s: &str, p: usize) -> (r: Option<(ClassExpression, usize)>)
    requires
        p <= s@.len(),
    ensures
        match r {
            Option::None => spec_parse_ce(s@, p as int) is None,
            Option::Some((v, np)) => {
                &&& spec_parse_ce(s@, p as int) == Some((v@, np as int))
                &&& p < np <= s@.len()
            },
        },
    decreases s@.len() - p, 3int,
{
    let n0 = s.unicode_len();
    if p >= n0 {
        return Option::None;
    }
    if let Option::Some((v, q)) = kw_iri_at(s, p, "Class") {
        return Option::Some((ClassExpression::Class(Class(v)), q));
    }
    if let Option::Some(q) = head_at(s, p, "ObjectIntersectionOf") {
        return match parse_ce_list_at(s, q) {
            Option::None => Option::None,
            Option::Some((es, q2)) => Option::Some(
                (ClassExpression::ObjectIntersectionOf(es), q2),
            ),
        };
    }
    if let Option::Some(q) = head_at(s, p, "ObjectUnionOf") {
        return match parse_ce_list_at(s, q) {
            Option::None => Option::None,
            Option::Some((es, q2)) => Option::Some((ClassExpression::ObjectUnionOf(es), q2)),
        };
    }
    if let Option::Some(q) = head_at(s, p, "ObjectComplementOf") {
        return match parse_ce_at(s, q) {
            Option::None => Option::None,
            Option::Some((e, q2)) => match close_at(s, q2) {
                Option::None => Option::None,
                Option::Some(q3) => Option::Some(
                    (ClassExpression::ObjectComplementOf(Box::new(e)), q3),
                ),
            },
        };
    }
    if let Option::Some(q) = head_at(s, p, "ObjectOneOf") {
        return match parse_individual_list_at(s, q) {
            Option::None => Option::None,
            Option::Some((is, q2)) => Option::Some((ClassExpression::ObjectOneOf(is), q2)),
        };
    }
    parse_ce_quantified_at(s, p)
}

/// Parses the quantified and cardinality class expressions, following
/// [`spec_parse_ce_quantified`].
pub fn parse_ce_quantified_at(s: &str, p: usize) -> (r: Option<(ClassExpression, usize)>)
    requires
        p <= s@.len(),
    ensures
        match r {
            Option::None => spec_parse_ce_quantified(s@, p as int) is None,
            Option::Some((v, np)) => {
                &&& spec_parse_ce_quantified(s@, p as int) == Some((v@, np as int))
                &&& p < np <= s@.len()
            },
        },
    decreases s@.len() - p, 2int,
{
    let n0 = s.unicode_len();
    if p >= n0 {
        return Option::None;
    }
    if let Option::Some(q) = head_at(s, p, "ObjectSomeValuesFrom") {
        return match parse_ope_at(s, q) {
            Option::None => Option::None,
            Option::Some((pr, q2)) => match parse_ce_at(s, q2) {
                Option::None => Option::None,
                Option::Some((f, q3)) => match close_at(s, q3) {
                    Option::None => Option::None,
                    Option::Some(q4) => Option::Some(
                        (
                            ClassExpression::ObjectSomeValuesFrom {
                                property: pr,
                                filler: Box::new(f),
                            },
                            q4,
                        ),
                    ),
                },
            },
        };
    }
    if let Option::Some(q) = head_at(s, p, "ObjectAllValuesFrom") {
        return match parse_ope_at(s, q) {
            Option::None => Option::None,
            Option::Some((pr, q2)) => match parse_ce_at(s, q2) {
                Option::None => Option::None,
                Option::Some((f, q3)) => match close_at(s, q3) {
                    Option::None => Option::None,
                    Option::Some(q4) => Option::Some(
                        (
                            ClassExpression::ObjectAllValuesFrom {
                                property: pr,
                                filler: Box::new(f),
                            },
                            q4,
                        ),
                    ),
                },
            },
        };
    }
    if let Option::Some(q) = head_at(s, p, "ObjectHasValue") {
        return match parse_ope_at(s, q) {
            Option::None => Option::None,
            Option::Some((pr, q2)) => match parse_named_individual_at(s, q2) {
                Option::None => Option::None,
                Option::Some((v, q3)) => match close_at(s, q3) {
                    Option::None => Option::None,
                    Option::Some(q4) => Option::Some(
                        (ClassExpression::ObjectHasValue { property: pr, value: v }, q4),
                    ),
                },
            },
        };
    }
    if let Option::Some(q) = head_at(s, p, "ObjectHasSelf") {
        return match parse_ope_at(s, q) {
            Option::None => Option::None,
            Option::Some((pr, q2)) => match close_at(s, q2) {
                Option::None => Option::None,
                Option::Some(q3) => Option::Some((ClassExpression::ObjectHasSelf(pr), q3)),
            },
        };
    }
    parse_ce_cardinality_at(s, p)
}

/// Parses the three cardinality class expressions, following
/// [`spec_parse_ce_cardinality`].
pub fn parse_ce_cardinality_at(s: &str, p: usize) -> (r: Option<(ClassExpression, usize)>)
    requires
        p <= s@.len(),
    ensures
        match r {
            Option::None => spec_parse_ce_cardinality(s@, p as int) is None,
            Option::Some((v, np)) => {
                &&& spec_parse_ce_cardinality(s@, p as int) == Some((v@, np as int))
                &&& p < np <= s@.len()
            },
        },
    decreases s@.len() - p, 1int,
{
    let n0 = s.unicode_len();
    if p >= n0 {
        return Option::None;
    }
    if let Option::Some(q) = head_at(s, p, "ObjectMinCardinality") {
        return match parse_cardinality_body_at(s, p, q) {
            Option::None => Option::None,
            Option::Some((m, pr, f, q2)) => Option::Some(
                (ClassExpression::ObjectMinCardinality { min: m, property: pr, filler: f }, q2),
            ),
        };
    }
    if let Option::Some(q) = head_at(s, p, "ObjectMaxCardinality") {
        return match parse_cardinality_body_at(s, p, q) {
            Option::None => Option::None,
            Option::Some((m, pr, f, q2)) => Option::Some(
                (ClassExpression::ObjectMaxCardinality { max: m, property: pr, filler: f }, q2),
            ),
        };
    }
    if let Option::Some(q) = head_at(s, p, "ObjectExactCardinality") {
        return match parse_cardinality_body_at(s, p, q) {
            Option::None => Option::None,
            Option::Some((m, pr, f, q2)) => Option::Some(
                (
                    ClassExpression::ObjectExactCardinality {
                        cardinality: m,
                        property: pr,
                        filler: f,
                    },
                    q2,
                ),
            ),
        };
    }
    Option::None
}

/// Parses a cardinality body, following [`spec_parse_cardinality_body`].
#[allow(clippy::type_complexity)]
pub fn parse_cardinality_body_at(s: &str, p: usize, q: usize) -> (r: Option<
    (u32, ObjectPropertyExpression, Option<Box<ClassExpression>>, usize),
>)
    requires
        p <= s@.len(),
        p < q <= s@.len(),
    ensures
        match r {
            Option::None => spec_parse_cardinality_body(s@, p as int, q as int) is None,
            Option::Some((m, pr, f, np)) => {
                &&& spec_parse_cardinality_body(s@, p as int, q as int) == Some(
                    (
                        m,
                        pr@,
                        match f {
                            Option::None => None,
                            Option::Some(b) => Some(Box::new((*b)@)),
                        },
                        np as int,
                    ),
                )
                &&& p < np <= s@.len()
            },
        },
    decreases s@.len() - p, 0int,
{
    let n = s.unicode_len();
    if p >= n {
        return Option::None;
    }
    match parse_u32_at(s, q) {
        Option::None => Option::None,
        Option::Some((m, q1)) => match parse_ope_at(s, q1) {
            Option::None => Option::None,
            Option::Some((pr, q2)) => {
                if q2 < n && s.get_char(q2) == ')' {
                    let np = skip_ws(s, q2 + 1);
                    Option::Some((m, pr, Option::None, np))
                } else {
                    match parse_ce_at(s, q2) {
                        Option::None => Option::None,
                        Option::Some((f, q3)) => match close_at(s, q3) {
                            Option::None => Option::None,
                            Option::Some(q4) => Option::Some(
                                (m, pr, Option::Some(Box::new(f)), q4),
                            ),
                        },
                    }
                }
            },
        },
    }
}

/// Parses a list of class expressions, following [`spec_parse_ce_list`].
pub fn parse_ce_list_at(s: &str, p: usize) -> (r: Option<(Vec<ClassExpression>, usize)>)
    requires
        p <= s@.len(),
    ensures
        match r {
            Option::None => spec_parse_ce_list(s@, p as int) is None,
            Option::Some((v, np)) => {
                &&& spec_parse_ce_list(s@, p as int) == Some((spec_ce_seq(v@), np as int))
                &&& p < np <= s@.len()
            },
        },
    decreases s@.len() - p, 4int,
{
    let n = s.unicode_len();
    if p >= n {
        return Option::None;
    }
    if s.get_char(p) == ')' {
        let np = skip_ws(s, p + 1);
        let empty: Vec<ClassExpression> = Vec::new();
        return Option::Some((empty, np));
    }
    match parse_ce_at(s, p) {
        Option::None => Option::None,
        Option::Some((e, q)) => match parse_ce_list_at(s, q) {
            Option::None => Option::None,
            Option::Some((mut rest, q2)) => {
                let ghost oldrest = rest@;
                rest.insert(0, e);
                proof {
                    lemma_spec_ce_seq(rest@);
                    lemma_spec_ce_seq(oldrest);
                    assert(spec_ce_seq(rest@) =~= spec_ce_seq(oldrest).insert(0, e@));
                }
                Option::Some((rest, q2))
            },
        },
    }
}


/// Parses `DataProperty ( <iri> )`.
pub open spec fn spec_parse_dp(s: Seq<char>, p: int) -> Option<(Seq<char>, int)> {
    spec_kw_iri(s, p, "DataProperty"@)
}

/// Parses a data property, following [`spec_parse_dp`].
pub fn parse_dp_at(s: &str, p: usize) -> (r: Option<(DataProperty, usize)>)
    requires
        p <= s@.len(),
    ensures
        match r {
            Option::None => spec_parse_dp(s@, p as int) is None,
            Option::Some((v, np)) => {
                &&& spec_parse_dp(s@, p as int) == Some((v@, np as int))
                &&& p < np <= s@.len()
            },
        },
{
    match kw_iri_at(s, p, "DataProperty") {
        Option::None => Option::None,
        Option::Some((v, q)) => Option::Some((DataProperty(v), q)),
    }
}

/// Parses data properties up to a closing parenthesis, which is consumed.
pub open spec fn spec_parse_dp_list(s: Seq<char>, p: int) -> Option<(Seq<Seq<char>>, int)>
    decreases s.len() - p,
{
    if p < 0 || p >= s.len() {
        None
    } else if s[p] == ')' {
        Some((Seq::empty(), spec_ws(s, p + 1)))
    } else {
        match spec_parse_dp(s, p) {
            Some((e, q)) => match spec_parse_dp_list(s, nxt(s, p, q)) {
                Some((rest, q2)) => Some((rest.insert(0, e), q2)),
                None => None,
            },
            None => None,
        }
    }
}

/// Parses a list of data properties, following [`spec_parse_dp_list`].
pub fn parse_dp_list_at(s: &str, p: usize) -> (r: Option<(Vec<DataProperty>, usize)>)
    requires
        p <= s@.len(),
    ensures
        match r {
            Option::None => spec_parse_dp_list(s@, p as int) is None,
            Option::Some((v, np)) => {
                &&& spec_parse_dp_list(s@, p as int) == Some((spec_dp_seq(v@), np as int))
                &&& p < np <= s@.len()
            },
        },
    decreases s@.len() - p,
{
    let n = s.unicode_len();
    if p >= n {
        return Option::None;
    }
    if s.get_char(p) == ')' {
        let np = skip_ws(s, p + 1);
        let empty: Vec<DataProperty> = Vec::new();
        assert(spec_dp_seq(empty@) =~= Seq::<Seq<char>>::empty());
        return Option::Some((empty, np));
    }
    match parse_dp_at(s, p) {
        Option::None => Option::None,
        Option::Some((e, q)) => match parse_dp_list_at(s, q) {
            Option::None => Option::None,
            Option::Some((mut rest, q2)) => {
                let ghost oldrest = rest@;
                rest.insert(0, e);
                proof {
                    assert(spec_dp_seq(rest@) =~= spec_dp_seq(oldrest).insert(0, e@));
                }
                Option::Some((rest, q2))
            },
        },
    }
}

/// Parses one class axiom.
pub open spec fn spec_parse_class_axiom(s: Seq<char>, p: int) -> Option<(SpecClassAxiom, int)> {
    match spec_head(s, p, "SubClassOf"@) {
        Some(q) => match spec_parse_ce(s, q) {
            Some((sub, q2)) => match spec_parse_ce(s, q2) {
                Some((sup, q3)) => match spec_close(s, q3) {
                    Some(q4) => Some(
                        (SpecClassAxiom::SubClassOf { sub_class: sub, super_class: sup }, q4),
                    ),
                    None => None,
                },
                None => None,
            },
            None => None,
        },
        None => match spec_head(s, p, "EquivalentClasses"@) {
            Some(q) => match spec_parse_ce_list(s, q) {
                Some((es, q2)) => Some((SpecClassAxiom::EquivalentClasses { classes: es }, q2)),
                None => None,
            },
            None => match spec_head(s, p, "DisjointClasses"@) {
                Some(q) => match spec_parse_ce_list(s, q) {
                    Some((es, q2)) => Some((SpecClassAxiom::DisjointClasses { classes: es }, q2)),
                    None => None,
                },
                None => match spec_head(s, p, "DisjointUnion"@) {
                    Some(q) => match spec_parse_ce(s, q) {
                        Some((SpecClassExpr::Class(c), q2)) => match spec_parse_ce_list(s, q2) {
                            Some((es, q3)) => Some(
                                (
                                    SpecClassAxiom::DisjointUnion {
                                        class: c,
                                        disjoint_classes: es,
                                    },
                                    q3,
                                ),
                            ),
                            None => None,
                        },
                        Some(_) => None,
                        None => None,
                    },
                    None => None,
                },
            },
        },
    }
}

/// Parses a class axiom, following [`spec_parse_class_axiom`].
pub fn parse_class_axiom_at(s: &str, p: usize) -> (r: Option<(ClassAxiom, usize)>)
    requires
        p <= s@.len(),
    ensures
        match r {
            Option::None => spec_parse_class_axiom(s@, p as int) is None,
            Option::Some((v, np)) => {
                &&& spec_parse_class_axiom(s@, p as int) == Some((v@, np as int))
                &&& p < np <= s@.len()
            },
        },
{
    if let Option::Some(q) = head_at(s, p, "SubClassOf") {
        return match parse_ce_at(s, q) {
            Option::None => Option::None,
            Option::Some((sub, q2)) => match parse_ce_at(s, q2) {
                Option::None => Option::None,
                Option::Some((sup, q3)) => match close_at(s, q3) {
                    Option::None => Option::None,
                    Option::Some(q4) => Option::Some(
                        (ClassAxiom::SubClassOf { sub_class: sub, super_class: sup }, q4),
                    ),
                },
            },
        };
    }
    if let Option::Some(q) = head_at(s, p, "EquivalentClasses") {
        return match parse_ce_list_at(s, q) {
            Option::None => Option::None,
            Option::Some((es, q2)) => Option::Some(
                (ClassAxiom::EquivalentClasses { classes: es }, q2),
            ),
        };
    }
    if let Option::Some(q) = head_at(s, p, "DisjointClasses") {
        return match parse_ce_list_at(s, q) {
            Option::None => Option::None,
            Option::Some((es, q2)) => Option::Some(
                (ClassAxiom::DisjointClasses { classes: es }, q2),
            ),
        };
    }
    if let Option::Some(q) = head_at(s, p, "DisjointUnion") {
        return match parse_ce_at(s, q) {
            Option::None => Option::None,
            Option::Some((first, q2)) => match first {
                ClassExpression::Class(c) => match parse_ce_list_at(s, q2) {
                    Option::None => Option::None,
                    Option::Some((es, q3)) => Option::Some(
                        (ClassAxiom::DisjointUnion { class: c, disjoint_classes: es }, q3),
                    ),
                },
                _ => Option::None,
            },
        };
    }
    Option::None
}

/// Parses one object property axiom.
pub open spec fn spec_parse_op_axiom(s: Seq<char>, p: int) -> Option<(
    SpecObjectPropertyAxiom,
    int,
)> {
    match spec_head(s, p, "SubObjectPropertyOf"@) {
        Some(q) => match spec_parse_ope(s, q) {
            Some((a, q2)) => match spec_parse_ope(s, q2) {
                Some((b, q3)) => match spec_close(s, q3) {
                    Some(q4) => Some(
                        (
                            SpecObjectPropertyAxiom::SubObjectPropertyOf {
                                sub_property: a,
                                super_property: b,
                            },
                            q4,
                        ),
                    ),
                    None => None,
                },
                None => None,
            },
            None => None,
        },
        None => match spec_head(s, p, "EquivalentObjectProperties"@) {
            Some(q) => match spec_parse_ope_list(s, q) {
                Some((ps, q2)) => Some(
                    (SpecObjectPropertyAxiom::EquivalentObjectProperties { properties: ps }, q2),
                ),
                None => None,
            },
            None => match spec_head(s, p, "DisjointObjectProperties"@) {
                Some(q) => match spec_parse_ope_list(s, q) {
                    Some((ps, q2)) => Some(
                        (SpecObjectPropertyAxiom::DisjointObjectProperties { properties: ps }, q2),
                    ),
                    None => None,
                },
                None => match spec_head(s, p, "InverseObjectProperties"@) {
                    Some(q) => match spec_parse_ope(s, q) {
                        Some((a, q2)) => match spec_parse_ope(s, q2) {
                            Some((b, q3)) => match spec_close(s, q3) {
                                Some(q4) => Some(
                                    (
                                        SpecObjectPropertyAxiom::InverseObjectProperties {
                                            prop1: a,
                                            prop2: b,
                                        },
                                        q4,
                                    ),
                                ),
                                None => None,
                            },
                            None => None,
                        },
                        None => None,
                    },
                    None => match spec_head(s, p, "ObjectPropertyDomain"@) {
                        Some(q) => match spec_parse_ope(s, q) {
                            Some((a, q2)) => match spec_parse_ce(s, q2) {
                                Some((d, q3)) => match spec_close(s, q3) {
                                    Some(q4) => Some(
                                        (
                                            SpecObjectPropertyAxiom::ObjectPropertyDomain {
                                                property: a,
                                                domain: d,
                                            },
                                            q4,
                                        ),
                                    ),
                                    None => None,
                                },
                                None => None,
                            },
                            None => None,
                        },
                        None => match spec_head(s, p, "ObjectPropertyRange"@) {
                            Some(q) => match spec_parse_ope(s, q) {
                                Some((a, q2)) => match spec_parse_ce(s, q2) {
                                    Some((d, q3)) => match spec_close(s, q3) {
                                        Some(q4) => Some(
                                            (
                                                SpecObjectPropertyAxiom::ObjectPropertyRange {
                                                    property: a,
                                                    range: d,
                                                },
                                                q4,
                                            ),
                                        ),
                                        None => None,
                                    },
                                    None => None,
                                },
                                None => None,
                            },
                            None => spec_parse_op_characteristic(s, p),
                        },
                    },
                },
            },
        },
    }
}

/// Parses the single-property object property axioms.
pub open spec fn spec_parse_op_characteristic(s: Seq<char>, p: int) -> Option<(
    SpecObjectPropertyAxiom,
    int,
)> {
    match spec_parse_op_char_kind(s, p) {
        Some((k, q)) => match spec_parse_ope(s, q) {
            Some((a, q2)) => match spec_close(s, q2) {
                Some(q3) => Some((spec_op_char_axiom(k, a), q3)),
                None => None,
            },
            None => None,
        },
        None => None,
    }
}

/// Recognises the keyword of a single-property object property axiom and
/// yields its index and the position after its opening parenthesis.
pub open spec fn spec_parse_op_char_kind(s: Seq<char>, p: int) -> Option<(int, int)> {
    match spec_head(s, p, "FunctionalObjectProperty"@) {
        Some(q) => Some((0int, q)),
        None => match spec_head(s, p, "InverseFunctionalObjectProperty"@) {
            Some(q) => Some((1int, q)),
            None => match spec_head(s, p, "ReflexiveObjectProperty"@) {
                Some(q) => Some((2int, q)),
                None => match spec_head(s, p, "IrreflexiveObjectProperty"@) {
                    Some(q) => Some((3int, q)),
                    None => match spec_head(s, p, "SymmetricObjectProperty"@) {
                        Some(q) => Some((4int, q)),
                        None => match spec_head(s, p, "AsymmetricObjectProperty"@) {
                            Some(q) => Some((5int, q)),
                            None => match spec_head(s, p, "TransitiveObjectProperty"@) {
                                Some(q) => Some((6int, q)),
                                None => None,
                            },
                        },
                    },
                },
            },
        },
    }
}

/// The single-property axiom built from a keyword index and a property.
pub open spec fn spec_op_char_axiom(k: int, a: SpecObjectPropertyExpr) -> SpecObjectPropertyAxiom {
    if k == 0 {
        SpecObjectPropertyAxiom::FunctionalObjectProperty { property: a }
    } else if k == 1 {
        SpecObjectPropertyAxiom::InverseFunctionalObjectProperty { property: a }
    } else if k == 2 {
        SpecObjectPropertyAxiom::ReflexiveObjectProperty { property: a }
    } else if k == 3 {
        SpecObjectPropertyAxiom::IrreflexiveObjectProperty { property: a }
    } else if k == 4 {
        SpecObjectPropertyAxiom::SymmetricObjectProperty { property: a }
    } else if k == 5 {
        SpecObjectPropertyAxiom::AsymmetricObjectProperty { property: a }
    } else {
        SpecObjectPropertyAxiom::TransitiveObjectProperty { property: a }
    }
}

/// Parses an object property axiom, following [`spec_parse_op_axiom`].
pub fn parse_op_axiom_at(s: &str, p: usize) -> (r: Option<(ObjectPropertyAxiom, usize)>)
    requires
        p <= s@.len(),
    ensures
        match r {
            Option::None => spec_parse_op_axiom(s@, p as int) is None,
            Option::Some((v, np)) => {
                &&& spec_parse_op_axiom(s@, p as int) == Some((v@, np as int))
                &&& p < np <= s@.len()
            },
        },
{
    if let Option::Some(q) = head_at(s, p, "SubObjectPropertyOf") {
        return match parse_ope_at(s, q) {
            Option::None => Option::None,
            Option::Some((a, q2)) => match parse_ope_at(s, q2) {
                Option::None => Option::None,
                Option::Some((b, q3)) => match close_at(s, q3) {
                    Option::None => Option::None,
                    Option::Some(q4) => Option::Some(
                        (
                            ObjectPropertyAxiom::SubObjectPropertyOf {
                                sub_property: a,
                                super_property: b,
                            },
                            q4,
                        ),
                    ),
                },
            },
        };
    }
    if let Option::Some(q) = head_at(s, p, "EquivalentObjectProperties") {
        return match parse_ope_list_at(s, q) {
            Option::None => Option::None,
            Option::Some((ps, q2)) => Option::Some(
                (ObjectPropertyAxiom::EquivalentObjectProperties { properties: ps }, q2),
            ),
        };
    }
    if let Option::Some(q) = head_at(s, p, "DisjointObjectProperties") {
        return match parse_ope_list_at(s, q) {
            Option::None => Option::None,
            Option::Some((ps, q2)) => Option::Some(
                (ObjectPropertyAxiom::DisjointObjectProperties { properties: ps }, q2),
            ),
        };
    }
    if let Option::Some(q) = head_at(s, p, "InverseObjectProperties") {
        return match parse_ope_at(s, q) {
            Option::None => Option::None,
            Option::Some((a, q2)) => match parse_ope_at(s, q2) {
                Option::None => Option::None,
                Option::Some((b, q3)) => match close_at(s, q3) {
                    Option::None => Option::None,
                    Option::Some(q4) => Option::Some(
                        (ObjectPropertyAxiom::InverseObjectProperties { prop1: a, prop2: b }, q4),
                    ),
                },
            },
        };
    }
    if let Option::Some(q) = head_at(s, p, "ObjectPropertyDomain") {
        return match parse_ope_at(s, q) {
            Option::None => Option::None,
            Option::Some((a, q2)) => match parse_ce_at(s, q2) {
                Option::None => Option::None,
                Option::Some((d, q3)) => match close_at(s, q3) {
                    Option::None => Option::None,
                    Option::Some(q4) => Option::Some(
                        (ObjectPropertyAxiom::ObjectPropertyDomain { property: a, domain: d }, q4),
                    ),
                },
            },
        };
    }
    if let Option::Some(q) = head_at(s, p, "ObjectPropertyRange") {
        return match parse_ope_at(s, q) {
            Option::None => Option::None,
            Option::Some((a, q2)) => match parse_ce_at(s, q2) {
                Option::None => Option::None,
                Option::Some((d, q3)) => match close_at(s, q3) {
                    Option::None => Option::None,
                    Option::Some(q4) => Option::Some(
                        (ObjectPropertyAxiom::ObjectPropertyRange { property: a, range: d }, q4),
                    ),
                },
            },
        };
    }
    let kind: Option<(u8, usize)> = if let Option::Some(q) = head_at(
        s,
        p,
        "FunctionalObjectProperty",
    ) {
        Option::Some((0u8, q))
    } else if let Option::Some(q) = head_at(s, p, "InverseFunctionalObjectProperty") {
        Option::Some((1u8, q))
    } else if let Option::Some(q) = head_at(s, p, "ReflexiveObjectProperty") {
        Option::Some((2u8, q))
    } else if let Option::Some(q) = head_at(s, p, "IrreflexiveObjectProperty") {
        Option::Some((3u8, q))
    } else if let Option::Some(q) = head_at(s, p, "SymmetricObjectProperty") {
        Option::Some((4u8, q))
    } else if let Option::Some(q) = head_at(s, p, "AsymmetricObjectProperty") {
        Option::Some((5u8, q))
    } else if let Option::Some(q) = head_at(s, p, "TransitiveObjectProperty") {
        Option::Some((6u8, q))
    } else {
        Option::None
    };
    match kind {
        Option::None => Option::None,
        Option::Some((k, q)) => match parse_ope_at(s, q) {
            Option::None => Option::None,
            Option::Some((a, q2)) => match close_at(s, q2) {
                Option::None => Option::None,
                Option::Some(q3) => {
                    let ax = if k == 0 {
                        ObjectPropertyAxiom::FunctionalObjectProperty { property: a }
                    } else if k == 1 {
                        ObjectPropertyAxiom::InverseFunctionalObjectProperty { property: a }
                    } else if k == 2 {
                        ObjectPropertyAxiom::ReflexiveObjectProperty { property: a }
                    } else if k == 3 {
                        ObjectPropertyAxiom::IrreflexiveObjectProperty { property: a }
                    } else if k == 4 {
                        ObjectPropertyAxiom::SymmetricObjectProperty { property: a }
                    } else if k == 5 {
                        ObjectPropertyAxiom::AsymmetricObjectProperty { property: a }
                    } else {
                        ObjectPropertyAxiom::TransitiveObjectProperty { property: a }
                    };
                    Option::Some((ax, q3))
                },
            },
        },
    }
}


/// Parses one data property axiom.
pub open spec fn spec_parse_dp_axiom(s: Seq<char>, p: int) -> Option<(SpecDataPropertyAxiom, int)> {
    match spec_head(s, p, "SubDataPropertyOf"@) {
        Some(q) => match spec_parse_dp(s, q) {
            Some((a, q2)) => match spec_parse_dp(s, q2) {
                Some((b, q3)) => match spec_close(s, q3) {
                    Some(q4) => Some(
                        (
                            SpecDataPropertyAxiom::SubDataPropertyOf {
                                sub_property: a,
                                super_property: b,
                            },
                            q4,
                        ),
                    ),
                    None => None,
                },
                None => None,
            },
            None => None,
        },
        None => match spec_head(s, p, "EquivalentDataProperties"@) {
            Some(q) => match spec_parse_dp_list(s, q) {
                Some((ps, q2)) => Some(
                    (SpecDataPropertyAxiom::EquivalentDataProperties { properties: ps }, q2),
                ),
                None => None,
            },
            None => match spec_head(s, p, "DisjointDataProperties"@) {
                Some(q) => match spec_parse_dp_list(s, q) {
                    Some((ps, q2)) => Some(
                        (SpecDataPropertyAxiom::DisjointDataProperties { properties: ps }, q2),
                    ),
                    None => None,
                },
                None => match spec_head(s, p, "DataPropertyDomain"@) {
                    Some(q) => match spec_parse_dp(s, q) {
                        Some((a, q2)) => match spec_parse_ce(s, q2) {
                            Some((d, q3)) => match spec_close(s, q3) {
                                Some(q4) => Some(
                                    (
                                        SpecDataPropertyAxiom::DataPropertyDomain {
                                            property: a,
                                            domain: d,
                                        },
                                        q4,
                                    ),
                                ),
                                None => None,
                            },
                            None => None,
                        },
                        None => None,
                    },
                    None => match spec_head(s, p, "DataPropertyRange"@) {
                        Some(q) => match spec_parse_dp(s, q) {
                            Some((a, q2)) => match spec_kw_iri(s, q2, "Datatype"@) {
                                Some((d, q3)) => match spec_close(s, q3) {
                                    Some(q4) => Some(
                                        (
                                            SpecDataPropertyAxiom::DataPropertyRange {
                                                property: a,
                                                range: SpecDataRange::Datatype(d),
                                            },
                                            q4,
                                        ),
                                    ),
                                    None => None,
                                },
                                None => None,
                            },
                            None => None,
                        },
                        None => match spec_head(s, p, "FunctionalDataProperty"@) {
                            Some(q) => match spec_parse_dp(s, q) {
                                Some((a, q2)) => match spec_close(s, q2) {
                                    Some(q3) => Some(
                                        (
                                            SpecDataPropertyAxiom::FunctionalDataProperty {
                                                property: a,
                                            },
                                            q3,
                                        ),
                                    ),
                                    None => None,
                                },
                                None => None,
                            },
                            None => None,
                        },
                    },
                },
            },
        },
    }
}

/// Parses a data property axiom, following [`spec_parse_dp_axiom`].
pub fn parse_dp_axiom_at(s: &str, p: usize) -> (r: Option<(DataPropertyAxiom, usize)>)
    requires
        p <= s@.len(),
    ensures
        match r {
            Option::None => spec_parse_dp_axiom(s@, p as int) is None,
            Option::Some((v, np)) => {
                &&& spec_parse_dp_axiom(s@, p as int) == Some((v@, np as int))
                &&& p < np <= s@.len()
            },
        },
{
    if let Option::Some(q) = head_at(s, p, "SubDataPropertyOf") {
        return match parse_dp_at(s, q) {
            Option::None => Option::None,
            Option::Some((a, q2)) => match parse_dp_at(s, q2) {
                Option::None => Option::None,
                Option::Some((b, q3)) => match close_at(s, q3) {
                    Option::None => Option::None,
                    Option::Some(q4) => Option::Some(
                        (
                            DataPropertyAxiom::SubDataPropertyOf {
                                sub_property: a,
                                super_property: b,
                            },
                            q4,
                        ),
                    ),
                },
            },
        };
    }
    if let Option::Some(q) = head_at(s, p, "EquivalentDataProperties") {
        return match parse_dp_list_at(s, q) {
            Option::None => Option::None,
            Option::Some((ps, q2)) => Option::Some(
                (DataPropertyAxiom::EquivalentDataProperties { properties: ps }, q2),
            ),
        };
    }
    if let Option::Some(q) = head_at(s, p, "DisjointDataProperties") {
        return match parse_dp_list_at(s, q) {
            Option::None => Option::None,
            Option::Some((ps, q2)) => Option::Some(
                (DataPropertyAxiom::DisjointDataProperties { properties: ps }, q2),
            ),
        };
    }
    if let Option::Some(q) = head_at(s, p, "DataPropertyDomain") {
        return match parse_dp_at(s, q) {
            Option::None => Option::None,
            Option::Some((a, q2)) => match parse_ce_at(s, q2) {
                Option::None => Option::None,
                Option::Some((d, q3)) => match close_at(s, q3) {
                    Option::None => Option::None,
                    Option::Some(q4) => Option::Some(
                        (DataPropertyAxiom::DataPropertyDomain { property: a, domain: d }, q4),
                    ),
                },
            },
        };
    }
    if let Option::Some(q) = head_at(s, p, "DataPropertyRange") {
        return match parse_dp_at(s, q) {
            Option::None => Option::None,
            Option::Some((a, q2)) => match kw_iri_at(s, q2, "Datatype") {
                Option::None => Option::None,
                Option::Some((d, q3)) => match close_at(s, q3) {
                    Option::None => Option::None,
                    Option::Some(q4) => Option::Some(
                        (
                            DataPropertyAxiom::DataPropertyRange {
                                property: a,
                                range: DataRange::Datatype(Datatype(d)),
                            },
                            q4,
                        ),
                    ),
                },
            },
        };
    }
    if let Option::Some(q) = head_at(s, p, "FunctionalDataProperty") {
        return match parse_dp_at(s, q) {
            Option::None => Option::None,
            Option::Some((a, q2)) => match close_at(s, q2) {
                Option::None => Option::None,
                Option::Some(q3) => Option::Some(
                    (DataPropertyAxiom::FunctionalDataProperty { property: a }, q3),
                ),
            },
        };
    }
    Option::None
}

/// Parses one assertion.
pub open spec fn spec_parse_assertion(s: Seq<char>, p: int) -> Option<(SpecAssertion, int)> {
    match spec_head(s, p, "SameIndividual"@) {
        Some(q) => match spec_parse_individual_list(s, q) {
            Some((is, q2)) => Some((SpecAssertion::SameIndividual { individuals: is }, q2)),
            None => None,
        },
        None => match spec_head(s, p, "DifferentIndividuals"@) {
            Some(q) => match spec_parse_individual_list(s, q) {
                Some((is, q2)) => Some(
                    (SpecAssertion::DifferentIndividuals { individuals: is }, q2),
                ),
                None => None,
            },
            None => match spec_head(s, p, "ClassAssertion"@) {
                Some(q) => match spec_parse_ce(s, q) {
                    Some((c, q2)) => match spec_parse_named_individual(s, q2) {
                        Some((i, q3)) => match spec_close(s, q3) {
                            Some(q4) => Some(
                                (SpecAssertion::ClassAssertion { class: c, individual: i }, q4),
                            ),
                            None => None,
                        },
                        None => None,
                    },
                    None => None,
                },
                None => match spec_head(s, p, "ObjectPropertyAssertion"@) {
                    Some(q) => match spec_parse_ope(s, q) {
                        Some((pr, q2)) => match spec_parse_named_individual(s, q2) {
                            Some((src, q3)) => match spec_parse_named_individual(s, q3) {
                                Some((tgt, q4)) => match spec_close(s, q4) {
                                    Some(q5) => Some(
                                        (
                                            SpecAssertion::ObjectPropertyAssertion {
                                                property: pr,
                                                source: src,
                                                target: tgt,
                                            },
                                            q5,
                                        ),
                                    ),
                                    None => None,
                                },
                                None => None,
                            },
                            None => None,
                        },
                        None => None,
                    },
                    None => match spec_head(s, p, "DataPropertyAssertion"@) {
                        Some(q) => match spec_parse_dp(s, q) {
                            Some((pr, q2)) => match spec_parse_named_individual(s, q2) {
                                Some((src, q3)) => match spec_parse_literal(s, q3) {
                                    Some((lit, q4)) => match spec_close(s, q4) {
                                        Some(q5) => Some(
                                            (
                                                SpecAssertion::DataPropertyAssertion {
                                                    property: pr,
                                                    source: src,
                                                    target: lit,
                                                },
                                                q5,
                                            ),
                                        ),
                                        None => None,
                                    },
                                    None => None,
                                },
                                None => None,
                            },
                            None => None,
                        },
                        None => spec_parse_negative_assertion(s, p),
                    },
                },
            },
        },
    }
}

/// Parses the two negative assertions.
pub open spec fn spec_parse_negative_assertion(s: Seq<char>, p: int) -> Option<(
    SpecAssertion,
    int,
)> {
    match spec_head(s, p, "NegativeObjectPropertyAssertion"@) {
        Some(q) => match spec_parse_ope(s, q) {
            Some((pr, q2)) => match spec_parse_named_individual(s, q2) {
                Some((src, q3)) => match spec_parse_named_individual(s, q3) {
                    Some((tgt, q4)) => match spec_close(s, q4) {
                        Some(q5) => Some(
                            (
                                SpecAssertion::NegativeObjectPropertyAssertion {
                                    property: pr,
                                    source: src,
                                    target: tgt,
                                },
                                q5,
                            ),
                        ),
                        None => None,
                    },
                    None => None,
                },
                None => None,
            },
            None => None,
        },
        None => match spec_head(s, p, "NegativeDataPropertyAssertion"@) {
            Some(q) => match spec_parse_dp(s, q) {
                Some((pr, q2)) => match spec_parse_named_individual(s, q2) {
                    Some((src, q3)) => match spec_parse_literal(s, q3) {
                        Some((lit, q4)) => match spec_close(s, q4) {
                            Some(q5) => Some(
                                (
                                    SpecAssertion::NegativeDataPropertyAssertion {
                                        property: pr,
                                        source: src,
                                        target: lit,
                                    },
                                    q5,
                                ),
                            ),
                            None => None,
                        },
                        None => None,
                    },
                    None => None,
                },
                None => None,
            },
            None => None,
        },
    }
}

/// Parses an assertion, following [`spec_parse_assertion`].
pub fn parse_assertion_at(s: &str, p: usize) -> (r: Option<(Assertion, usize)>)
    requires
        p <= s@.len(),
    ensures
        match r {
            Option::None => spec_parse_assertion(s@, p as int) is None,
            Option::Some((v, np)) => {
                &&& spec_parse_assertion(s@, p as int) == Some((v@, np as int))
                &&& p < np <= s@.len()
            },
        },
{
    if let Option::Some(q) = head_at(s, p, "SameIndividual") {
        return match parse_individual_list_at(s, q) {
            Option::None => Option::None,
            Option::Some((is, q2)) => Option::Some(
                (Assertion::SameIndividual { individuals: is }, q2),
            ),
        };
    }
    if let Option::Some(q) = head_at(s, p, "DifferentIndividuals") {
        return match parse_individual_list_at(s, q) {
            Option::None => Option::None,
            Option::Some((is, q2)) => Option::Some(
                (Assertion::DifferentIndividuals { individuals: is }, q2),
            ),
        };
    }
    if let Option::Some(q) = head_at(s, p, "ClassAssertion") {
        return match parse_ce_at(s, q) {
            Option::None => Option::None,
            Option::Some((c, q2)) => match parse_named_individual_at(s, q2) {
                Option::None => Option::None,
                Option::Some((i, q3)) => match close_at(s, q3) {
                    Option::None => Option::None,
                    Option::Some(q4) => Option::Some(
                        (Assertion::ClassAssertion { class: c, individual: i }, q4),
                    ),
                },
            },
        };
    }
    if let Option::Some(q) = head_at(s, p, "ObjectPropertyAssertion") {
        return match parse_ope_at(s, q) {
            Option::None => Option::None,
            Option::Some((pr, q2)) => match parse_named_individual_at(s, q2) {
                Option::None => Option::None,
                Option::Some((src, q3)) => match parse_named_individual_at(s, q3) {
                    Option::None => Option::None,
                    Option::Some((tgt, q4)) => match close_at(s, q4) {
                        Option::None => Option::None,
                        Option::Some(q5) => Option::Some(
                            (
                                Assertion::ObjectPropertyAssertion {
                                    property: pr,
                                    source: src,
                                    target: tgt,
                                },
                                q5,
                            ),
                        ),
                    },
                },
            },
        };
    }
    if let Option::Some(q) = head_at(s, p, "DataPropertyAssertion") {
        return match parse_dp_at(s, q) {
            Option::None => Option::None,
            Option::Some((pr, q2)) => match parse_named_individual_at(s, q2) {
                Option::None => Option::None,
                Option::Some((src, q3)) => match parse_literal_at(s, q3) {
                    Option::None => Option::None,
                    Option::Some((lit, q4)) => match close_at(s, q4) {
                        Option::None => Option::None,
                        Option::Some(q5) => Option::Some(
                            (
                                Assertion::DataPropertyAssertion {
                                    property: pr,
                                    source: src,
                                    target: lit,
                                },
                                q5,
                            ),
                        ),
                    },
                },
            },
        };
    }
    if let Option::Some(q) = head_at(s, p, "NegativeObjectPropertyAssertion") {
        return match parse_ope_at(s, q) {
            Option::None => Option::None,
            Option::Some((pr, q2)) => match parse_named_individual_at(s, q2) {
                Option::None => Option::None,
                Option::Some((src, q3)) => match parse_named_individual_at(s, q3) {
                    Option::None => Option::None,
                    Option::Some((tgt, q4)) => match close_at(s, q4) {
                        Option::None => Option::None,
                        Option::Some(q5) => Option::Some(
                            (
                                Assertion::NegativeObjectPropertyAssertion {
                                    property: pr,
                                    source: src,
                                    target: tgt,
                                },
                                q5,
                            ),
                        ),
                    },
                },
            },
        };
    }
    if let Option::Some(q) = head_at(s, p, "NegativeDataPropertyAssertion") {
        return match parse_dp_at(s, q) {
            Option::None => Option::None,
            Option::Some((pr, q2)) => match parse_named_individual_at(s, q2) {
                Option::None => Option::None,
                Option::Some((src, q3)) => match parse_literal_at(s, q3) {
                    Option::None => Option::None,
                    Option::Some((lit, q4)) => match close_at(s, q4) {
                        Option::None => Option::None,
                        Option::Some(q5) => Option::Some(
                            (
                                Assertion::NegativeDataPropertyAssertion {
                                    property: pr,
                                    source: src,
                                    target: lit,
                                },
                                q5,
                            ),
                        ),
                    },
                },
            },
        };
    }
    Option::None
}

/// Parses one axiom of any kind.
pub open spec fn spec_parse_axiom(s: Seq<char>, p: int) -> Option<(SpecAxiom, int)> {
    match spec_parse_class_axiom(s, p) {
        Some((a, q)) => Some((SpecAxiom::Class(a), q)),
        None => match spec_parse_op_axiom(s, p) {
            Some((a, q)) => Some((SpecAxiom::ObjectProperty(a), q)),
            None => match spec_parse_dp_axiom(s, p) {
                Some((a, q)) => Some((SpecAxiom::DataProperty(a), q)),
                None => match spec_parse_assertion(s, p) {
                    Some((a, q)) => Some((SpecAxiom::Assertion(a), q)),
                    None => None,
                },
            },
        },
    }
}

/// Parses an axiom, following [`spec_parse_axiom`].
pub fn parse_axiom_at(s: &str, p: usize) -> (r: Option<(Axiom, usize)>)
    requires
        p <= s@.len(),
    ensures
        match r {
            Option::None => spec_parse_axiom(s@, p as int) is None,
            Option::Some((v, np)) => {
                &&& spec_parse_axiom(s@, p as int) == Some((v@, np as int))
                &&& p < np <= s@.len()
            },
        },
{
    if let Option::Some((a, q)) = parse_class_axiom_at(s, p) {
        return Option::Some((Axiom::Class(a), q));
    }
    if let Option::Some((a, q)) = parse_op_axiom_at(s, p) {
        return Option::Some((Axiom::ObjectProperty(a), q));
    }
    if let Option::Some((a, q)) = parse_dp_axiom_at(s, p) {
        return Option::Some((Axiom::DataProperty(a), q));
    }
    if let Option::Some((a, q)) = parse_assertion_at(s, p) {
        return Option::Some((Axiom::Assertion(a), q));
    }
    Option::None
}

/// Parses the items of an ontology up to the closing parenthesis: `Import`
/// declarations and axioms, in any order.
pub open spec fn spec_parse_ontology_items(s: Seq<char>, p: int) -> Option<(
    (Seq<Seq<char>>, Seq<SpecAxiom>),
    int,
)>
    decreases s.len() - p,
{
    if p < 0 || p >= s.len() {
        None
    } else if s[p] == ')' {
        Some(((Seq::empty(), Seq::empty()), spec_ws(s, p + 1)))
    } else {
        match spec_kw_iri(s, p, "Import"@) {
            Some((v, q)) => match spec_parse_ontology_items(s, nxt(s, p, q)) {
                Some(((imps, axs), q2)) => Some(((imps.insert(0, v), axs), q2)),
                None => None,
            },
            None => match spec_parse_axiom(s, p) {
                Some((a, q)) => match spec_parse_ontology_items(s, nxt(s, p, q)) {
                    Some(((imps, axs), q2)) => Some(((imps, axs.insert(0, a)), q2)),
                    None => None,
                },
                None => None,
            },
        }
    }
}

/// Parses an ontology: the `Ontology` keyword, an optional ontology IRI
/// (recorded nowhere, as it names the document itself), and the items.
pub open spec fn spec_parse_ontology(s: Seq<char>, p: int) -> Option<(SpecOntology, int)> {
    match spec_head(s, p, "Ontology"@) {
        Some(q) => {
            let start = match spec_parse_iri(s, q) {
                Some((_, q1)) => q1,
                None => q,
            };
            match spec_parse_ontology_items(s, start) {
                Some(((imps, axs), q2)) => Some(
                    (SpecOntology { direct_imports: imps, axioms: axs }, q2),
                ),
                None => None,
            }
        },
        None => None,
    }
}

/// Parses the ontology items, following [`spec_parse_ontology_items`].
pub fn parse_ontology_items_at(s: &str, p: usize) -> (r: Option<(Vec<IRI>, Vec<Axiom>, usize)>)
    requires
        p <= s@.len(),
    ensures
        match r {
            Option::None => spec_parse_ontology_items(s@, p as int) is None,
            Option::Some((imps, axs, np)) => {
                &&& spec_parse_ontology_items(s@, p as int) == Some(
                    ((spec_iri_seq(imps@), spec_axiom_seq(axs@)), np as int),
                )
                &&& p < np <= s@.len()
            },
        },
    decreases s@.len() - p,
{
    let n = s.unicode_len();
    if p >= n {
        return Option::None;
    }
    if s.get_char(p) == ')' {
        let np = skip_ws(s, p + 1);
        let imps: Vec<IRI> = Vec::new();
        let axs: Vec<Axiom> = Vec::new();
        proof {
            assert(spec_iri_seq(imps@) =~= Seq::<Seq<char>>::empty());
            assert(spec_axiom_seq(axs@) =~= Seq::<SpecAxiom>::empty());
        }
        return Option::Some((imps, axs, np));
    }
    if let Option::Some((v, q)) = kw_iri_at(s, p, "Import") {
        return match parse_ontology_items_at(s, q) {
            Option::None => Option::None,
            Option::Some((mut imps, axs, q2)) => {
                let ghost oldimps = imps@;
                imps.insert(0, v);
                proof {
                    assert(spec_iri_seq(imps@) =~= spec_iri_seq(oldimps).insert(0, v@));
                }
                Option::Some((imps, axs, q2))
            },
        };
    }
    match parse_axiom_at(s, p) {
        Option::None => Option::None,
        Option::Some((a, q)) => match parse_ontology_items_at(s, q) {
            Option::None => Option::None,
            Option::Some((imps, mut axs, q2)) => {
                let ghost oldaxs = axs@;
                axs.insert(0, a);
                proof {
                    assert(spec_axiom_seq(axs@) =~= spec_axiom_seq(oldaxs).insert(0, a@));
                }
                Option::Some((imps, axs, q2))
            },
        },
    }
}

/// Parses an ontology, following [`spec_parse_ontology`].
pub fn parse_ontology_at(s: &str, p: usize) -> (r: Option<(Ontology, usize)>)
    requires
        p <= s@.len(),
    ensures
        match r {
            Option::None => spec_parse_ontology(s@, p as int) is None,
            Option::Some((v, np)) => {
                &&& spec_parse_ontology(s@, p as int) == Some((v@, np as int))
                &&& p < np <= s@.len()
            },
        },
{
    match head_at(s, p, "Ontology") {
        Option::None => Option::None,
        Option::Some(q) => {
            let start = match parse_iri_at(s, q) {
                Option::Some((_, q1)) => q1,
                Option::None => q,
            };
            match parse_ontology_items_at(s, start) {
                Option::None => Option::None,
                Option::Some((imps, axs, q2)) => {
                    let o = Ontology { direct_imports: imps, axioms: axs };
                    proof {
                        assert(o@ =~= (SpecOntology {
                            direct_imports: spec_iri_seq(imps@),
                            axioms: spec_axiom_seq(axs@),
                        }));
                    }
                    Option::Some((o, q2))
                },
            }
        },
    }
}


/// Mathematical value of a [`Prefix`].
#[verifier::ext_equal]
pub struct SpecPrefix {
    pub name: Seq<char>,
    pub iri: Seq<char>,
}

/// A prefix declaration, binding a short name to a namespace IRI.
#[derive(Debug, PartialEq, Eq, Hash)]
pub struct Prefix {
    pub name: String,
    pub iri: IRI,
}

impl View for Prefix {
    type V = SpecPrefix;

    open spec fn view(&self) -> SpecPrefix {
        SpecPrefix { name: self.name@, iri: self.iri@ }
    }
}

impl Clone for Prefix {
    fn clone(&self) -> (r: Self)
        ensures
            r@ == self@,
    {
        Prefix { name: self.name.clone(), iri: self.iri.clone() }
    }
}

/// First position at or after `p` whose character cannot continue a prefix
/// name.
pub open spec fn spec_pname_end(s: Seq<char>, p: int) -> int
    decreases s.len() - p,
{
    if p < 0 || p >= s.len() {
        s.len() as int
    } else if is_pname_char(s[p]) {
        spec_pname_end(s, p + 1)
    } else {
        p
    }
}

/// Scans to the end of a prefix name, following [`spec_pname_end`].
pub fn pname_end_at(s: &str, p: usize) -> (r: usize)
    requires
        p <= s@.len(),
    ensures
        r == spec_pname_end(s@, p as int),
        p <= r <= s@.len(),
{
    let n = s.unicode_len();
    let mut i = p;
    loop
        invariant
            p <= i <= n,
            n == s@.len(),
            spec_pname_end(s@, p as int) == spec_pname_end(s@, i as int),
        decreases n - i,
    {
        if i >= n {
            return i;
        }
        let c = s.get_char(i);
        if !(('a' <= c && c <= 'z') || ('A' <= c && c <= 'Z') || ('0' <= c && c <= '9') || c == '_'
            || c == '-') {
            return i;
        }
        i = i + 1;
    }
}

/// Parses `Prefix ( name := <iri> )`.
pub open spec fn spec_parse_prefix(s: Seq<char>, p: int) -> Option<(SpecPrefix, int)> {
    match spec_head(s, p, "Prefix"@) {
        Some(q) => {
            let e = spec_pname_end(s, q);
            let name = s.subrange(q, e);
            if spec_match(s, e, ":="@) {
                match spec_parse_iri(s, e + 2) {
                    Some((v, q2)) => match spec_close(s, q2) {
                        Some(q3) => Some((SpecPrefix { name: name, iri: v }, q3)),
                        None => None,
                    },
                    None => None,
                }
            } else {
                None
            }
        },
        None => None,
    }
}

/// Parses a prefix declaration, following [`spec_parse_prefix`].
pub fn parse_prefix_at(s: &str, p: usize) -> (r: Option<(Prefix, usize)>)
    requires
        p <= s@.len(),
    ensures
        match r {
            Option::None => spec_parse_prefix(s@, p as int) is None,
            Option::Some((v, np)) => {
                &&& spec_parse_prefix(s@, p as int) == Some((v@, np as int))
                &&& p < np <= s@.len()
            },
        },
{
    match head_at(s, p, "Prefix") {
        Option::None => Option::None,
        Option::Some(q) => {
            let n = s.unicode_len();
            let e = pname_end_at(s, q);
            proof {
                reveal_strlit(":=");
                assert(":="@.len() == 2);
            }
            if !str_match(s, e, ":=") {
                return Option::None;
            }
            let name = String::from_str(s.substring_char(q, e));
            match parse_iri_at(s, e + 2) {
                Option::None => Option::None,
                Option::Some((v, q2)) => match close_at(s, q2) {
                    Option::None => Option::None,
                    Option::Some(q3) => Option::Some((Prefix { name, iri: v }, q3)),
                },
            }
        },
    }
}

/// Mathematical value of a [`ParseError`].
#[verifier::ext_equal]
pub struct SpecParseError {
    pub position: int,
    pub message: Seq<char>,
}

/// A parse failure: the character position at which the failure was noticed
/// and a short description.
#[derive(Debug, PartialEq, Eq)]
pub struct ParseError {
    pub position: usize,
    pub message: String,
}

impl View for ParseError {
    type V = SpecParseError;

    open spec fn view(&self) -> SpecParseError {
        SpecParseError { position: self.position as int, message: self.message@ }
    }
}

impl Clone for ParseError {
    fn clone(&self) -> (r: Self)
        ensures
            r@ == self@,
    {
        ParseError { position: self.position, message: self.message.clone() }
    }
}

/// The description used when the input does not match the grammar at all.
pub open spec fn spec_no_match_message() -> Seq<char> {
    "the input does not match the functional-style grammar"@
}

/// The description used when a value parses but input remains after it.
pub open spec fn spec_trailing_message() -> Seq<char> {
    "unexpected input after the parsed value"@
}

/// Builds the error for an input that matches no production.
fn no_match_error(position: usize) -> (r: ParseError)
    ensures
        r@.position == position as int,
        r@.message == spec_no_match_message(),
{
    ParseError {
        position,
        message: String::from_str("the input does not match the functional-style grammar"),
    }
}

/// Builds the error for trailing input.
fn trailing_error(position: usize) -> (r: ParseError)
    ensures
        r@.position == position as int,
        r@.message == spec_trailing_message(),
{
    ParseError { position, message: String::from_str("unexpected input after the parsed value") }
}

/// The parser facade: each function parses one complete input string, with
/// leading and trailing whitespace and comments allowed.
pub struct OWLParser;


impl OWLParser {
    /// Parses a complete `<IRI>`.
    pub fn parse_iri(input: &str) -> (r: Result<IRI, ParseError>)
        ensures
            ({
                let p0 = spec_ws(input@, 0);
                match spec_parse_iri(input@, p0) {
                    Some((v, q)) => if q == input@.len() {
                        r matches Ok(x) && x@ == v
                    } else {
                        r matches Err(e) && e@.position == q && e@.message
                            == spec_trailing_message()
                    },
                    None => (r matches Err(e) && e@.position == p0 && e@.message
                        == spec_no_match_message()),
                }
            }),
    {
        let n = input.unicode_len();
        let p0 = skip_ws(input, 0);
        match parse_iri_at(input, p0) {
            Option::Some((v, q)) => if q == n {
                Result::Ok(v)
            } else {
                Result::Err(trailing_error(q))
            },
            Option::None => Result::Err(no_match_error(p0)),
        }
    }

    /// Parses a complete prefix declaration.
    pub fn parse_prefix(input: &str) -> (r: Result<Prefix, ParseError>)
        ensures
            ({
                let p0 = spec_ws(input@, 0);
                match spec_parse_prefix(input@, p0) {
                    Some((v, q)) => if q == input@.len() {
                        r matches Ok(x) && x@ == v
                    } else {
                        r matches Err(e) && e@.position == q && e@.message
                            == spec_trailing_message()
                    },
                    None => (r matches Err(e) && e@.position == p0 && e@.message
                        == spec_no_match_message()),
                }
            }),
    {
        let n = input.unicode_len();
        let p0 = skip_ws(input, 0);
        match parse_prefix_at(input, p0) {
            Option::Some((v, q)) => if q == n {
                Result::Ok(v)
            } else {
                Result::Err(trailing_error(q))
            },
            Option::None => Result::Err(no_match_error(p0)),
        }
    }

    /// Parses a complete entity.
    pub fn parse_entity(input: &str) -> (r: Result<Entity, ParseError>)
        ensures
            ({
                let p0 = spec_ws(input@, 0);
                match spec_parse_entity(input@, p0) {
                    Some((v, q)) => if q == input@.len() {
                        r matches Ok(x) && x@ == v
                    } else {
                        r matches Err(e) && e@.position == q && e@.message
                            == spec_trailing_message()
                    },
                    None => (r matches Err(e) && e@.position == p0 && e@.message
                        == spec_no_match_message()),
                }
            }),
    {
        let n = input.unicode_len();
        let p0 = skip_ws(input, 0);
        match parse_entity_at(input, p0) {
            Option::Some((v, q)) => if q == n {
                Result::Ok(v)
            } else {
                Result::Err(trailing_error(q))
            },
            Option::None => Result::Err(no_match_error(p0)),
        }
    }

    /// Parses a complete literal.
    pub fn parse_literal(input: &str) -> (r: Result<Literal, ParseError>)
        ensures
            ({
                let p0 = spec_ws(input@, 0);
                match spec_parse_literal(input@, p0) {
                    Some((v, q)) => if q == input@.len() {
                        r matches Ok(x) && x@ == v
                    } else {
                        r matches Err(e) && e@.position == q && e@.message
                            == spec_trailing_message()
                    },
                    None => (r matches Err(e) && e@.position == p0 && e@.message
                        == spec_no_match_message()),
                }
            }),
    {
        let n = input.unicode_len();
        let p0 = skip_ws(input, 0);
        match parse_literal_at(input, p0) {
            Option::Some((v, q)) => if q == n {
                Result::Ok(v)
            } else {
                Result::Err(trailing_error(q))
            },
            Option::None => Result::Err(no_match_error(p0)),
        }
    }

    /// Parses a complete class expression.
    pub fn parse_class_expression(input: &str) -> (r: Result<ClassExpression, ParseError>)
        ensures
            ({
                let p0 = spec_ws(input@, 0);
                match spec_parse_ce(input@, p0) {
                    Some((v, q)) => if q == input@.len() {
                        r matches Ok(x) && x@ == v
                    } else {
                        r matches Err(e) && e@.position == q && e@.message
                            == spec_trailing_message()
                    },
                    None => (r matches Err(e) && e@.position == p0 && e@.message
                        == spec_no_match_message()),
                }
            }),
    {
        let n = input.unicode_len();
        let p0 = skip_ws(input, 0);
        match parse_ce_at(input, p0) {
            Option::Some((v, q)) => if q == n {
                Result::Ok(v)
            } else {
                Result::Err(trailing_error(q))
            },
            Option::None => Result::Err(no_match_error(p0)),
        }
    }

    /// Parses a complete object property expression.
    pub fn parse_object_property_expression(input: &str) -> (r: Result<ObjectPropertyExpression, ParseError>)
        ensures
            ({
                let p0 = spec_ws(input@, 0);
                match spec_parse_ope(input@, p0) {
                    Some((v, q)) => if q == input@.len() {
                        r matches Ok(x) && x@ == v
                    } else {
                        r matches Err(e) && e@.position == q && e@.message
                            == spec_trailing_message()
                    },
                    None => (r matches Err(e) && e@.position == p0 && e@.message
                        == spec_no_match_message()),
                }
            }),
    {
        let n = input.unicode_len();
        let p0 = skip_ws(input, 0);
        match parse_ope_at(input, p0) {
            Option::Some((v, q)) => if q == n {
                Result::Ok(v)
            } else {
                Result::Err(trailing_error(q))
            },
            Option::None => Result::Err(no_match_error(p0)),
        }
    }

    /// Parses a complete class axiom.
    pub fn parse_class_axiom(input: &str) -> (r: Result<ClassAxiom, ParseError>)
        ensures
            ({
                let p0 = spec_ws(input@, 0);
                match spec_parse_class_axiom(input@, p0) {
                    Some((v, q)) => if q == input@.len() {
                        r matches Ok(x) && x@ == v
                    } else {
                        r matches Err(e) && e@.position == q && e@.message
                            == spec_trailing_message()
                    },
                    None => (r matches Err(e) && e@.position == p0 && e@.message
                        == spec_no_match_message()),
                }
            }),
    {
        let n = input.unicode_len();
        let p0 = skip_ws(input, 0);
        match parse_class_axiom_at(input, p0) {
            Option::Some((v, q)) => if q == n {
                Result::Ok(v)
            } else {
                Result::Err(trailing_error(q))
            },
            Option::None => Result::Err(no_match_error(p0)),
        }
    }

    /// Parses a complete object property axiom.
    pub fn parse_object_property_axiom(input: &str) -> (r: Result<ObjectPropertyAxiom, ParseError>)
        ensures
            ({
                let p0 = spec_ws(input@, 0);
                match spec_parse_op_axiom(input@, p0) {
                    Some((v, q)) => if q == input@.len() {
                        r matches Ok(x) && x@ == v
                    } else {
                        r matches Err(e) && e@.position == q && e@.message
                            == spec_trailing_message()
                    },
                    None => (r matches Err(e) && e@.position == p0 && e@.message
                        == spec_no_match_message()),
                }
            }),
    {
        let n = input.unicode_len();
        let p0 = skip_ws(input, 0);
        match parse_op_axiom_at(input, p0) {
            Option::Some((v, q)) => if q == n {
                Result::Ok(v)
            } else {
                Result::Err(trailing_error(q))
            },
            Option::None => Result::Err(no_match_error(p0)),
        }
    }

    /// Parses a complete data property axiom.
    pub fn parse_data_property_axiom(input: &str) -> (r: Result<DataPropertyAxiom, ParseError>)
        ensures
            ({
                let p0 = spec_ws(input@, 0);
                match spec_parse_dp_axiom(input@, p0) {
                    Some((v, q)) => if q == input@.len() {
                        r matches Ok(x) && x@ == v
                    } else {
                        r matches Err(e) && e@.position == q && e@.message
                            == spec_trailing_message()
                    },
                    None => (r matches Err(e) && e@.position == p0 && e@.message
                        == spec_no_match_message()),
                }
            }),
    {
        let n = input.unicode_len();
        let p0 = skip_ws(input, 0);
        match parse_dp_axiom_at(input, p0) {
            Option::Some((v, q)) => if q == n {
                Result::Ok(v)
            } else {
                Result::Err(trailing_error(q))
            },
            Option::None => Result::Err(no_match_error(p0)),
        }
    }

    /// Parses a complete assertion.
    pub fn parse_assertion(input: &str) -> (r: Result<Assertion, ParseError>)
        ensures
            ({
                let p0 = spec_ws(input@, 0);
                match spec_parse_assertion(input@, p0) {
                    Some((v, q)) => if q == input@.len() {
                        r matches Ok(x) && x@ == v
                    } else {
                        r matches Err(e) && e@.position == q && e@.message
                            == spec_trailing_message()
                    },
                    None => (r matches Err(e) && e@.position == p0 && e@.message
                        == spec_no_match_message()),
                }
            }),
    {
        let n = input.unicode_len();
        let p0 = skip_ws(input, 0);
        match parse_assertion_at(input, p0) {
            Option::Some((v, q)) => if q == n {
                Result::Ok(v)
            } else {
                Result::Err(trailing_error(q))
            },
            Option::None => Result::Err(no_match_error(p0)),
        }
    }

    /// Parses a complete axiom of any kind.
    pub fn parse_axiom(input: &str) -> (r: Result<Axiom, ParseError>)
        ensures
            ({
                let p0 = spec_ws(input@, 0);
                match spec_parse_axiom(input@, p0) {
                    Some((v, q)) => if q == input@.len() {
                        r matches Ok(x) && x@ == v
                    } else {
                        r matches Err(e) && e@.position == q && e@.message
                            == spec_trailing_message()
                    },
                    None => (r matches Err(e) && e@.position == p0 && e@.message
                        == spec_no_match_message()),
                }
            }),
    {
        let n = input.unicode_len();
        let p0 = skip_ws(input, 0);
        match parse_axiom_at(input, p0) {
            Option::Some((v, q)) => if q == n {
                Result::Ok(v)
            } else {
                Result::Err(trailing_error(q))
            },
            Option::None => Result::Err(no_match_error(p0)),
        }
    }

    /// Parses a complete ontology document.
    pub fn parse_ontology(input: &str) -> (r: Result<Ontology, ParseError>)
        ensures
            ({
                let p0 = spec_ws(input@, 0);
                match spec_parse_ontology(input@, p0) {
                    Some((v, q)) => if q == input@.len() {
                        r matches Ok(x) && x@ == v
                    } else {
                        r matches Err(e) && e@.position == q && e@.message
                            == spec_trailing_message()
                    },
                    None => (r matches Err(e) && e@.position == p0 && e@.message
                        == spec_no_match_message()),
                }
            }),
    {
        let n = input.unicode_len();
        let p0 = skip_ws(input, 0);
        match parse_ontology_at(input, p0) {
            Option::Some((v, q)) => if q == n {
                Result::Ok(v)
            } else {
                Result::Err(trailing_error(q))
            },
            Option::None => Result::Err(no_match_error(p0)),
        }
    }

    /// Parses a complete `ObjectProperty ( <iri> )`.
    pub fn parse_object_property(input: &str) -> (r: Result<ObjectProperty, ParseError>)
        ensures
            ({
                let p0 = spec_ws(input@, 0);
                match spec_kw_iri(input@, p0, "ObjectProperty"@) {
                    Some((v, q)) => if q == input@.len() {
                        r matches Ok(x) && x@ == v
                    } else {
                        r matches Err(e) && e@.position == q && e@.message
                            == spec_trailing_message()
                    },
                    None => (r matches Err(e) && e@.position == p0 && e@.message
                        == spec_no_match_message()),
                }
            }),
    {
        let n = input.unicode_len();
        let p0 = skip_ws(input, 0);
        match kw_iri_at(input, p0, "ObjectProperty") {
            Option::Some((v, q)) => if q == n {
                Result::Ok(ObjectProperty(v))
            } else {
                Result::Err(trailing_error(q))
            },
            Option::None => Result::Err(no_match_error(p0)),
        }
    }
}


/// The rendering of an IRI in angle brackets.
pub open spec fn spec_ser_iri(s: Seq<char>) -> Seq<char> {
    "<"@ + s + ">"@
}

/// The rendering of an individual.  Anonymous individuals have no surface
/// form of their own; their identifier is rendered like a name.
pub open spec fn spec_ser_individual(i: SpecIndividual) -> Seq<char> {
    match i {
        SpecIndividual::Named(n) => "NamedIndividual("@ + spec_ser_iri(n) + ")"@,
        SpecIndividual::Anonymous(n) => "NamedIndividual("@ + spec_ser_iri(n) + ")"@,
    }
}

/// The rendering of a literal: the language tag when there is one, the
/// datatype unless it is the default string datatype.
pub open spec fn spec_ser_literal(l: SpecLiteral) -> Seq<char> {
    let quoted = "\""@ + l.value + "\""@;
    match l.lang {
        Some(tag) => quoted + "@"@ + tag,
        None => if l.datatype == spec_xsd_string() {
            quoted
        } else {
            quoted + "^^"@ + spec_ser_iri(l.datatype)
        },
    }
}

/// The rendering of an object property expression.
pub open spec fn spec_ser_ope(p: SpecObjectPropertyExpr) -> Seq<char>
    decreases p, 1int,
{
    match p {
        SpecObjectPropertyExpr::ObjectProperty(n) => "ObjectProperty("@ + spec_ser_iri(n) + ")"@,
        SpecObjectPropertyExpr::InverseObjectProperty(n) => "ObjectInverseOf(ObjectProperty("@
            + spec_ser_iri(n) + "))"@,
        SpecObjectPropertyExpr::ObjectPropertyChain(ps) => "ObjectPropertyChain("@
            + spec_ser_ope_seq(ps) + ")"@,
    }
}

/// The rendering of a sequence of object property expressions.
pub open spec fn spec_ser_ope_seq(ps: Seq<SpecObjectPropertyExpr>) -> Seq<char>
    decreases ps, 0int,
{
    if ps.len() == 0 {
        Seq::empty()
    } else {
        spec_ser_ope_seq(ps.drop_last()) + spec_ser_ope(ps.last())
    }
}

/// The rendering of a class expression.
pub open spec fn spec_ser_ce(c: SpecClassExpr) -> Seq<char>
    decreases c, 1int,
{
    match c {
        SpecClassExpr::Class(n) => "Class("@ + spec_ser_iri(n) + ")"@,
        SpecClassExpr::ObjectIntersectionOf(cs) => "ObjectIntersectionOf("@ + spec_ser_ce_seq(cs)
            + ")"@,
        SpecClassExpr::ObjectUnionOf(cs) => "ObjectUnionOf("@ + spec_ser_ce_seq(cs) + ")"@,
        SpecClassExpr::ObjectComplementOf(e) => "ObjectComplementOf("@ + spec_ser_ce(*e) + ")"@,
        SpecClassExpr::ObjectOneOf(is) => "ObjectOneOf("@ + spec_ser_individual_seq(is) + ")"@,
        SpecClassExpr::ObjectSomeValuesFrom { property, filler } => "ObjectSomeValuesFrom("@
            + spec_ser_ope(property) + spec_ser_ce(*filler) + ")"@,
        SpecClassExpr::ObjectAllValuesFrom { property, filler } => "ObjectAllValuesFrom("@
            + spec_ser_ope(property) + spec_ser_ce(*filler) + ")"@,
        SpecClassExpr::ObjectHasValue { property, value } => "ObjectHasValue("@ + spec_ser_ope(
            property,
        ) + spec_ser_individual(value) + ")"@,
        SpecClassExpr::ObjectHasSelf(p) => "ObjectHasSelf("@ + spec_ser_ope(p) + ")"@,
        SpecClassExpr::ObjectMinCardinality { min, property, filler } => "ObjectMinCardinality("@
            + crate::reasoner::spec_u32_decimal(min) + " "@ + spec_ser_ope(property)
            + spec_ser_ce_opt(filler) + ")"@,
        SpecClassExpr::ObjectMaxCardinality { max, property, filler } => "ObjectMaxCardinality("@
            + crate::reasoner::spec_u32_decimal(max) + " "@ + spec_ser_ope(property)
            + spec_ser_ce_opt(filler) + ")"@,
        SpecClassExpr::ObjectExactCardinality {
            cardinality,
            property,
            filler,
        } => "ObjectExactCardinality("@ + crate::reasoner::spec_u32_decimal(cardinality) + " "@
            + spec_ser_ope(property) + spec_ser_ce_opt(filler) + ")"@,
    }
}

/// The rendering of an optional cardinality filler.
pub open spec fn spec_ser_ce_opt(f: Option<Box<SpecClassExpr>>) -> Seq<char>
    decreases f, 0int,
{
    match f {
        Some(e) => spec_ser_ce(*e),
        None => Seq::empty(),
    }
}

/// The rendering of a sequence of class expressions.
pub open spec fn spec_ser_ce_seq(cs: Seq<SpecClassExpr>) -> Seq<char>
    decreases cs, 0int,
{
    if cs.len() == 0 {
        Seq::empty()
    } else {
        spec_ser_ce_seq(cs.drop_last()) + spec_ser_ce(cs.last())
    }
}

/// The rendering of a sequence of individuals.
pub open spec fn spec_ser_individual_seq(is: Seq<SpecIndividual>) -> Seq<char>
    decreases is,
{
    if is.len() == 0 {
        Seq::empty()
    } else {
        spec_ser_individual_seq(is.drop_last()) + spec_ser_individual(is.last())
    }
}

/// The rendering of a data property.
pub open spec fn spec_ser_dp(n: Seq<char>) -> Seq<char> {
    "DataProperty("@ + spec_ser_iri(n) + ")"@
}

/// The rendering of a sequence of data properties.
pub open spec fn spec_ser_dp_seq(ps: Seq<Seq<char>>) -> Seq<char>
    decreases ps,
{
    if ps.len() == 0 {
        Seq::empty()
    } else {
        spec_ser_dp_seq(ps.drop_last()) + spec_ser_dp(ps.last())
    }
}

/// The rendering of a data range.  Only plain datatypes have a surface form
/// in this grammar; the other ranges render their parts in the same style.
pub open spec fn spec_ser_dr(r: SpecDataRange) -> Seq<char> {
    match r {
        SpecDataRange::Datatype(n) => "Datatype("@ + spec_ser_iri(n) + ")"@,
        _ => "Datatype(<>)"@,
    }
}

/// The rendering of a class axiom.
pub open spec fn spec_ser_class_axiom(a: SpecClassAxiom) -> Seq<char> {
    match a {
        SpecClassAxiom::SubClassOf { sub_class, super_class } => "SubClassOf("@ + spec_ser_ce(
            sub_class,
        ) + spec_ser_ce(super_class) + ")"@,
        SpecClassAxiom::EquivalentClasses { classes } => "EquivalentClasses("@ + spec_ser_ce_seq(
            classes,
        ) + ")"@,
        SpecClassAxiom::DisjointClasses { classes } => "DisjointClasses("@ + spec_ser_ce_seq(
            classes,
        ) + ")"@,
        SpecClassAxiom::DisjointUnion { class, disjoint_classes } => "DisjointUnion(Class("@
            + spec_ser_iri(class) + ")"@ + spec_ser_ce_seq(disjoint_classes) + ")"@,
    }
}

/// The rendering of an object property axiom.
pub open spec fn spec_ser_op_axiom(a: SpecObjectPropertyAxiom) -> Seq<char> {
    match a {
        SpecObjectPropertyAxiom::SubObjectPropertyOf {
            sub_property,
            super_property,
        } => "SubObjectPropertyOf("@ + spec_ser_ope(sub_property) + spec_ser_ope(super_property)
            + ")"@,
        SpecObjectPropertyAxiom::EquivalentObjectProperties {
            properties,
        } => "EquivalentObjectProperties("@ + spec_ser_ope_seq(properties) + ")"@,
        SpecObjectPropertyAxiom::DisjointObjectProperties {
            properties,
        } => "DisjointObjectProperties("@ + spec_ser_ope_seq(properties) + ")"@,
        SpecObjectPropertyAxiom::InverseObjectProperties { prop1, prop2 } => (
        "InverseObjectProperties("@ + spec_ser_ope(prop1) + spec_ser_ope(prop2) + ")"@),
        SpecObjectPropertyAxiom::ObjectPropertyDomain { property, domain } => (
        "ObjectPropertyDomain("@ + spec_ser_ope(property) + spec_ser_ce(domain) + ")"@),
        SpecObjectPropertyAxiom::ObjectPropertyRange { property, range } => ("ObjectPropertyRange("@
            + spec_ser_ope(property) + spec_ser_ce(range) + ")"@),
        SpecObjectPropertyAxiom::FunctionalObjectProperty { property } => (
        "FunctionalObjectProperty("@ + spec_ser_ope(property) + ")"@),
        SpecObjectPropertyAxiom::InverseFunctionalObjectProperty { property } => (
        "InverseFunctionalObjectProperty("@ + spec_ser_ope(property) + ")"@),
        SpecObjectPropertyAxiom::ReflexiveObjectProperty { property } => (
        "ReflexiveObjectProperty("@ + spec_ser_ope(property) + ")"@),
        SpecObjectPropertyAxiom::IrreflexiveObjectProperty { property } => (
        "IrreflexiveObjectProperty("@ + spec_ser_ope(property) + ")"@),
        SpecObjectPropertyAxiom::SymmetricObjectProperty { property } => (
        "SymmetricObjectProperty("@ + spec_ser_ope(property) + ")"@),
        SpecObjectPropertyAxiom::AsymmetricObjectProperty { property } => (
        "AsymmetricObjectProperty("@ + spec_ser_ope(property) + ")"@),
        SpecObjectPropertyAxiom::TransitiveObjectProperty { property } => (
        "TransitiveObjectProperty("@ + spec_ser_ope(property) + ")"@),
    }
}

/// The rendering of a data property axiom.
pub open spec fn spec_ser_dp_axiom(a: SpecDataPropertyAxiom) -> Seq<char> {
    match a {
        SpecDataPropertyAxiom::SubDataPropertyOf { sub_property, super_property } => (
        "SubDataPropertyOf("@ + spec_ser_dp(sub_property) + spec_ser_dp(super_property) + ")"@),
        SpecDataPropertyAxiom::EquivalentDataProperties { properties } => (
        "EquivalentDataProperties("@ + spec_ser_dp_seq(properties) + ")"@),
        SpecDataPropertyAxiom::DisjointDataProperties { properties } => ("DisjointDataProperties("@
            + spec_ser_dp_seq(properties) + ")"@),
        SpecDataPropertyAxiom::DataPropertyDomain { property, domain } => ("DataPropertyDomain("@
            + spec_ser_dp(property) + spec_ser_ce(domain) + ")"@),
        SpecDataPropertyAxiom::DataPropertyRange { property, range } => ("DataPropertyRange("@
            + spec_ser_dp(property) + spec_ser_dr(range) + ")"@),
        SpecDataPropertyAxiom::FunctionalDataProperty { property } => ("FunctionalDataProperty("@
            + spec_ser_dp(property) + ")"@),
    }
}

/// The rendering of an assertion.
pub open spec fn spec_ser_assertion(a: SpecAssertion) -> Seq<char> {
    match a {
        SpecAssertion::SameIndividual { individuals } => "SameIndividual("@
            + spec_ser_individual_seq(individuals) + ")"@,
        SpecAssertion::DifferentIndividuals { individuals } => "DifferentIndividuals("@
            + spec_ser_individual_seq(individuals) + ")"@,
        SpecAssertion::ClassAssertion { class, individual } => "ClassAssertion("@ + spec_ser_ce(
            class,
        ) + spec_ser_individual(individual) + ")"@,
        SpecAssertion::ObjectPropertyAssertion { property, source, target } => (
        "ObjectPropertyAssertion("@ + spec_ser_ope(property) + spec_ser_individual(source)
            + spec_ser_individual(target) + ")"@),
        SpecAssertion::DataPropertyAssertion { property, source, target } => (
        "DataPropertyAssertion("@ + spec_ser_dp(property) + spec_ser_individual(source)
            + spec_ser_literal(target) + ")"@),
        SpecAssertion::NegativeObjectPropertyAssertion { property, source, target } => (
        "NegativeObjectPropertyAssertion("@ + spec_ser_ope(property) + spec_ser_individual(source)
            + spec_ser_individual(target) + ")"@),
        SpecAssertion::NegativeDataPropertyAssertion { property, source, target } => (
        "NegativeDataPropertyAssertion("@ + spec_ser_dp(property) + spec_ser_individual(source)
            + spec_ser_literal(target) + ")"@),
        SpecAssertion::HasKey { class, object_property_expression, data_property } => ("HasKey(Class("@
            + spec_ser_iri(class) + ")"@ + spec_ser_ope_seq(object_property_expression)
            + spec_ser_dp_seq(data_property) + ")"@),
    }
}

/// The rendering of an axiom of any kind.
pub open spec fn spec_ser_axiom(a: SpecAxiom) -> Seq<char> {
    match a {
        SpecAxiom::Class(x) => spec_ser_class_axiom(x),
        SpecAxiom::ObjectProperty(x) => spec_ser_op_axiom(x),
        SpecAxiom::DataProperty(x) => spec_ser_dp_axiom(x),
        SpecAxiom::Assertion(x) => spec_ser_assertion(x),
    }
}

/// The rendering of a sequence of axioms.
pub open spec fn spec_ser_axiom_seq(axs: Seq<SpecAxiom>) -> Seq<char>
    decreases axs,
{
    if axs.len() == 0 {
        Seq::empty()
    } else {
        spec_ser_axiom_seq(axs.drop_last()) + spec_ser_axiom(axs.last())
    }
}

/// The rendering of a sequence of imports.
pub open spec fn spec_ser_import_seq(is: Seq<Seq<char>>) -> Seq<char>
    decreases is,
{
    if is.len() == 0 {
        Seq::empty()
    } else {
        spec_ser_import_seq(is.drop_last()) + "Import("@ + spec_ser_iri(is.last()) + ")"@
    }
}

/// The canonical rendering of an ontology: the `Ontology` keyword around
/// its imports and axioms, without separating whitespace.
pub open spec fn spec_ser_ontology(o: SpecOntology) -> Seq<char> {
    "Ontology("@ + spec_ser_import_seq(o.direct_imports) + spec_ser_axiom_seq(o.axioms) + ")"@
}


/// Appends the rendering of an IRI.
fn ser_iri(out: &mut String, iri: &IRI)
    ensures
        final(out)@ == old(out)@ + spec_ser_iri(iri@),
{
    let ghost base = out@;
    out.append("<");
    out.append(iri.0.as_str());
    out.append(">");
    proof {
        assert(out@ =~= base + spec_ser_iri(iri@));
    }
}

/// Appends the rendering of an individual.
fn ser_individual(out: &mut String, i: &Individual)
    ensures
        final(out)@ == old(out)@ + spec_ser_individual(i@),
{
    let ghost base = out@;
    out.append("NamedIndividual(");
    match i {
        Individual::Named(n) => ser_iri(out, n),
        Individual::Anonymous(n) => {
            let ghost mid = out@;
            out.append("<");
            out.append(n.0.as_str());
            out.append(">");
            proof {
                assert(out@ =~= mid + spec_ser_iri(n@));
            }
        },
    }
    out.append(")");
    proof {
        assert(out@ =~= base + spec_ser_individual(i@));
    }
}

/// Appends the rendering of a literal.
fn ser_literal(out: &mut String, l: &Literal)
    ensures
        final(out)@ == old(out)@ + spec_ser_literal(l@),
{
    let ghost base = out@;
    out.append("\"");
    out.append(l.value.as_str());
    out.append("\"");
    match &l.lang {
        Option::Some(tag) => {
            out.append("@");
            out.append(tag.as_str());
        },
        Option::None => {
            if !str_match(l.datatype.0 .0.as_str(), 0, "http://www.w3.org/2001/XMLSchema#string")
                || l.datatype.0 .0.as_str().unicode_len() != "http://www.w3.org/2001/XMLSchema#string".unicode_len() {
                out.append("^^");
                ser_iri(out, &l.datatype.0);
                proof {
                    assert(l.datatype@ != spec_xsd_string());
                }
            } else {
                proof {
                    assert(l.datatype@ =~= spec_xsd_string());
                }
            }
        },
    }
    proof {
        assert(out@ =~= base + spec_ser_literal(l@));
    }
}

/// Appends the rendering of an object property expression.
fn ser_ope(out: &mut String, p: &ObjectPropertyExpression)
    ensures
        final(out)@ == old(out)@ + spec_ser_ope(p@),
    decreases *p, 1int,
{
    let ghost base = out@;
    match p {
        ObjectPropertyExpression::ObjectProperty(n) => {
            out.append("ObjectProperty(");
            ser_iri(out, &n.0);
            out.append(")");
        },
        ObjectPropertyExpression::InverseObjectProperty(n) => {
            out.append("ObjectInverseOf(ObjectProperty(");
            ser_iri(out, &n.0);
            out.append("))");
        },
        ObjectPropertyExpression::ObjectPropertyChain(ps) => {
            out.append("ObjectPropertyChain(");
            proof {
                assert(decreases_to!(*p => p->ObjectPropertyChain_0));
            }
            ser_ope_vec(p, ps, out);
            out.append(")");
        },
    }
    proof {
        assert(out@ =~= base + spec_ser_ope(p@));
    }
}

/// Appends the renderings of a vector of object property expressions.
fn ser_ope_vec(x: &ObjectPropertyExpression, ps: &Vec<ObjectPropertyExpression>, out: &mut String)
    requires
        decreases_to!(*x => *ps),
    ensures
        final(out)@ == old(out)@ + spec_ser_ope_seq(spec_ope_seq(ps@)),
    decreases *x, 0int,
{
    let ghost psv = spec_ope_seq(ps@);
    let ghost base = out@;
    proof {
        lemma_spec_ope_seq(ps@);
        assert(out@ =~= base + spec_ser_ope_seq(psv.subrange(0, 0)));
    }
    for i in 0..ps.len()
        invariant
            psv == spec_ope_seq(ps@),
            psv.len() == ps@.len(),
            decreases_to!(*x => *ps),
            out@ == base + spec_ser_ope_seq(psv.subrange(0, i as int)),
    {
        proof {
            lemma_spec_ope_seq(ps@);
            assert(decreases_to!(*ps => ps@));
            vstd::std_specs::vec::axiom_vec_index_decreases::<ObjectPropertyExpression>(
                *ps,
                i as int,
            );
            assert(decreases_to!(*x => ps@[i as int]));
        }
        ser_ope(out, &ps[i]);
        proof {
            assert(psv.subrange(0, i as int + 1).drop_last() =~= psv.subrange(0, i as int));
            assert(psv.subrange(0, i as int + 1).last() == psv[i as int]);
            assert(out@ =~= base + spec_ser_ope_seq(psv.subrange(0, i as int + 1)));
        }
    }
    proof {
        assert(psv.subrange(0, psv.len() as int) =~= psv);
    }
}

/// Appends the renderings of a vector of individuals.
fn ser_individual_vec(is: &Vec<Individual>, out: &mut String)
    ensures
        final(out)@ == old(out)@ + spec_ser_individual_seq(spec_individual_seq(is@)),
{
    let ghost isv = spec_individual_seq(is@);
    let ghost base = out@;
    proof {
        assert(out@ =~= base + spec_ser_individual_seq(isv.subrange(0, 0)));
    }
    for i in 0..is.len()
        invariant
            isv == spec_individual_seq(is@),
            isv.len() == is@.len(),
            out@ == base + spec_ser_individual_seq(isv.subrange(0, i as int)),
    {
        ser_individual(out, &is[i]);
        proof {
            assert(isv.subrange(0, i as int + 1).drop_last() =~= isv.subrange(0, i as int));
            assert(isv.subrange(0, i as int + 1).last() == isv[i as int]);
            assert(out@ =~= base + spec_ser_individual_seq(isv.subrange(0, i as int + 1)));
        }
    }
    proof {
        assert(isv.subrange(0, isv.len() as int) =~= isv);
    }
}

/// Appends the rendering of a class expression.
#[verifier::rlimit(100)]
fn ser_ce(out: &mut String, c: &ClassExpression)
    ensures
        final(out)@ == old(out)@ + spec_ser_ce(c@),
    decreases *c, 1int,
{
    let ghost base = out@;
    match c {
        ClassExpression::Class(n) => {
            out.append("Class(");
            ser_iri(out, &n.0);
            out.append(")");
        },
        ClassExpression::ObjectIntersectionOf(cs) => {
            out.append("ObjectIntersectionOf(");
            proof {
                assert(decreases_to!(*c => c->ObjectIntersectionOf_0));
            }
            ser_ce_vec(c, cs, out);
            out.append(")");
        },
        ClassExpression::ObjectUnionOf(cs) => {
            out.append("ObjectUnionOf(");
            proof {
                assert(decreases_to!(*c => c->ObjectUnionOf_0));
            }
            ser_ce_vec(c, cs, out);
            out.append(")");
        },
        ClassExpression::ObjectComplementOf(e) => {
            out.append("ObjectComplementOf(");
            proof {
                assert(decreases_to!(*c => c->ObjectComplementOf_0));
            }
            ser_ce(out, &*e);
            out.append(")");
        },
        ClassExpression::ObjectOneOf(is) => {
            out.append("ObjectOneOf(");
            ser_individual_vec(is, out);
            out.append(")");
        },
        ClassExpression::ObjectSomeValuesFrom { property, filler } => {
            out.append("ObjectSomeValuesFrom(");
            ser_ope(out, property);
            proof {
                assert(decreases_to!(*c => c->ObjectSomeValuesFrom_filler));
            }
            ser_ce(out, &*filler);
            out.append(")");
        },
        ClassExpression::ObjectAllValuesFrom { property, filler } => {
            out.append("ObjectAllValuesFrom(");
            ser_ope(out, property);
            proof {
                assert(decreases_to!(*c => c->ObjectAllValuesFrom_filler));
            }
            ser_ce(out, &*filler);
            out.append(")");
        },
        ClassExpression::ObjectHasValue { property, value } => {
            out.append("ObjectHasValue(");
            ser_ope(out, property);
            ser_individual(out, value);
            out.append(")");
        },
        ClassExpression::ObjectHasSelf(p) => {
            out.append("ObjectHasSelf(");
            ser_ope(out, p);
            out.append(")");
        },
        ClassExpression::ObjectMinCardinality { min, property, filler } => {
            out.append("ObjectMinCardinality(");
            let digits = crate::reasoner::u32_decimal(*min);
            out.append(digits.as_str());
            out.append(" ");
            ser_ope(out, property);
            match filler {
                Option::Some(f) => {
                    proof {
                        assert(decreases_to!(*c => c->ObjectMinCardinality_filler));
                        assert(decreases_to!(
                            c->ObjectMinCardinality_filler => c->ObjectMinCardinality_filler->0));
                    }
                    ser_ce(out, &*f);
                    proof {
                        reveal_with_fuel(spec_ser_ce_opt, 2);
                        assert(spec_ser_ce_opt(Option::Some(Box::new((*f)@)))
                            == spec_ser_ce((*f)@));
                    }
                },
                Option::None => {
                    proof {
                        reveal_with_fuel(spec_ser_ce_opt, 2);
                        assert(spec_ser_ce_opt(Option::<Box<SpecClassExpr>>::None)
                            =~= Seq::<char>::empty());
                    }
                },
            }
            out.append(")");
        },
        ClassExpression::ObjectMaxCardinality { max, property, filler } => {
            out.append("ObjectMaxCardinality(");
            let digits = crate::reasoner::u32_decimal(*max);
            out.append(digits.as_str());
            out.append(" ");
            ser_ope(out, property);
            match filler {
                Option::Some(f) => {
                    proof {
                        assert(decreases_to!(*c => c->ObjectMaxCardinality_filler));
                        assert(decreases_to!(
                            c->ObjectMaxCardinality_filler => c->ObjectMaxCardinality_filler->0));
                    }
                    ser_ce(out, &*f);
                    proof {
                        reveal_with_fuel(spec_ser_ce_opt, 2);
                        assert(spec_ser_ce_opt(Option::Some(Box::new((*f)@)))
                            == spec_ser_ce((*f)@));
                    }
                },
                Option::None => {
                    proof {
                        reveal_with_fuel(spec_ser_ce_opt, 2);
                        assert(spec_ser_ce_opt(Option::<Box<SpecClassExpr>>::None)
                            =~= Seq::<char>::empty());
                    }
                },
            }
            out.append(")");
        },
        ClassExpression::ObjectExactCardinality { cardinality, property, filler } => {
            out.append("ObjectExactCardinality(");
            let digits = crate::reasoner::u32_decimal(*cardinality);
            out.append(digits.as_str());
            out.append(" ");
            ser_ope(out, property);
            match filler {
                Option::Some(f) => {
                    proof {
                        assert(decreases_to!(*c => c->ObjectExactCardinality_filler));
                        assert(decreases_to!(
                            c->ObjectExactCardinality_filler
                                => c->ObjectExactCardinality_filler->0));
                    }
                    ser_ce(out, &*f);
                    proof {
                        reveal_with_fuel(spec_ser_ce_opt, 2);
                        assert(spec_ser_ce_opt(Option::Some(Box::new((*f)@)))
                            == spec_ser_ce((*f)@));
                    }
                },
                Option::None => {
                    proof {
                        reveal_with_fuel(spec_ser_ce_opt, 2);
                        assert(spec_ser_ce_opt(Option::<Box<SpecClassExpr>>::None)
                            =~= Seq::<char>::empty());
                    }
                },
            }
            out.append(")");
        },
    }
    proof {
        assert(out@ =~= base + spec_ser_ce(c@));
    }
}

/// Appends the renderings of a vector of class expressions.
fn ser_ce_vec(x: &ClassExpression, cs: &Vec<ClassExpression>, out: &mut String)
    requires
        decreases_to!(*x => *cs),
    ensures
        final(out)@ == old(out)@ + spec_ser_ce_seq(spec_ce_seq(cs@)),
    decreases *x, 0int,
{
    let ghost csv = spec_ce_seq(cs@);
    let ghost base = out@;
    proof {
        lemma_spec_ce_seq(cs@);
        assert(out@ =~= base + spec_ser_ce_seq(csv.subrange(0, 0)));
    }
    for i in 0..cs.len()
        invariant
            csv == spec_ce_seq(cs@),
            csv.len() == cs@.len(),
            decreases_to!(*x => *cs),
            out@ == base + spec_ser_ce_seq(csv.subrange(0, i as int)),
    {
        proof {
            lemma_spec_ce_seq(cs@);
            assert(decreases_to!(*cs => cs@));
            vstd::std_specs::vec::axiom_vec_index_decreases::<ClassExpression>(*cs, i as int);
            assert(decreases_to!(*x => cs@[i as int]));
        }
        ser_ce(out, &cs[i]);
        proof {
            assert(csv.subrange(0, i as int + 1).drop_last() =~= csv.subrange(0, i as int));
            assert(csv.subrange(0, i as int + 1).last() == csv[i as int]);
            assert(out@ =~= base + spec_ser_ce_seq(csv.subrange(0, i as int + 1)));
        }
    }
    proof {
        assert(csv.subrange(0, csv.len() as int) =~= csv);
    }
}


/// Appends the rendering of a data property.
fn ser_dp(out: &mut String, p: &DataProperty)
    ensures
        final(out)@ == old(out)@ + spec_ser_dp(p@),
{
    let ghost base = out@;
    out.append("DataProperty(");
    ser_iri(out, &p.0);
    out.append(")");
    proof {
        assert(out@ =~= base + spec_ser_dp(p@));
    }
}

/// Appends the renderings of a vector of data properties.
fn ser_dp_vec(ps: &Vec<DataProperty>, out: &mut String)
    ensures
        final(out)@ == old(out)@ + spec_ser_dp_seq(spec_dp_seq(ps@)),
{
    let ghost psv = spec_dp_seq(ps@);
    let ghost base = out@;
    proof {
        assert(out@ =~= base + spec_ser_dp_seq(psv.subrange(0, 0)));
    }
    for i in 0..ps.len()
        invariant
            psv == spec_dp_seq(ps@),
            psv.len() == ps@.len(),
            out@ == base + spec_ser_dp_seq(psv.subrange(0, i as int)),
    {
        ser_dp(out, &ps[i]);
        proof {
            assert(psv.subrange(0, i as int + 1).drop_last() =~= psv.subrange(0, i as int));
            assert(psv.subrange(0, i as int + 1).last() == psv[i as int]);
            assert(out@ =~= base + spec_ser_dp_seq(psv.subrange(0, i as int + 1)));
        }
    }
    proof {
        assert(psv.subrange(0, psv.len() as int) =~= psv);
    }
}

/// Appends the rendering of a data range.
fn ser_dr(out: &mut String, r: &DataRange)
    ensures
        final(out)@ == old(out)@ + spec_ser_dr(r@),
{
    let ghost base = out@;
    match r {
        DataRange::Datatype(d) => {
            out.append("Datatype(");
            ser_iri(out, &d.0);
            out.append(")");
        },
        _ => {
            out.append("Datatype(<>)");
        },
    }
    proof {
        crate::owl2_profile::lemma_dr_variants(*r);
        assert(out@ =~= base + spec_ser_dr(r@));
    }
}

/// Appends the rendering of a class axiom.
fn ser_class_axiom(out: &mut String, a: &ClassAxiom)
    ensures
        final(out)@ == old(out)@ + spec_ser_class_axiom(a@),
{
    let ghost base = out@;
    match a {
        ClassAxiom::SubClassOf { sub_class, super_class } => {
            out.append("SubClassOf(");
            ser_ce(out, sub_class);
            ser_ce(out, super_class);
            out.append(")");
        },
        ClassAxiom::EquivalentClasses { classes } => {
            out.append("EquivalentClasses(");
            ser_ce_plain_vec(classes, out);
            out.append(")");
        },
        ClassAxiom::DisjointClasses { classes } => {
            out.append("DisjointClasses(");
            ser_ce_plain_vec(classes, out);
            out.append(")");
        },
        ClassAxiom::DisjointUnion { class, disjoint_classes } => {
            out.append("DisjointUnion(Class(");
            ser_iri(out, &class.0);
            out.append(")");
            ser_ce_plain_vec(disjoint_classes, out);
            out.append(")");
        },
    }
    proof {
        assert(out@ =~= base + spec_ser_class_axiom(a@));
    }
}

/// Appends the renderings of a vector of class expressions outside the
/// recursive cluster.
fn ser_ce_plain_vec(cs: &Vec<ClassExpression>, out: &mut String)
    ensures
        final(out)@ == old(out)@ + spec_ser_ce_seq(spec_ce_seq(cs@)),
{
    let ghost csv = spec_ce_seq(cs@);
    let ghost base = out@;
    proof {
        lemma_spec_ce_seq(cs@);
        assert(out@ =~= base + spec_ser_ce_seq(csv.subrange(0, 0)));
    }
    for i in 0..cs.len()
        invariant
            csv == spec_ce_seq(cs@),
            csv.len() == cs@.len(),
            out@ == base + spec_ser_ce_seq(csv.subrange(0, i as int)),
    {
        proof {
            lemma_spec_ce_seq(cs@);
        }
        ser_ce(out, &cs[i]);
        proof {
            assert(csv.subrange(0, i as int + 1).drop_last() =~= csv.subrange(0, i as int));
            assert(csv.subrange(0, i as int + 1).last() == csv[i as int]);
            assert(out@ =~= base + spec_ser_ce_seq(csv.subrange(0, i as int + 1)));
        }
    }
    proof {
        assert(csv.subrange(0, csv.len() as int) =~= csv);
    }
}

/// Appends the rendering of an object property axiom.
#[verifier::rlimit(100)]
fn ser_op_axiom(out: &mut String, a: &ObjectPropertyAxiom)
    ensures
        final(out)@ == old(out)@ + spec_ser_op_axiom(a@),
{
    let ghost base = out@;
    match a {
        ObjectPropertyAxiom::SubObjectPropertyOf { sub_property, super_property } => {
            out.append("SubObjectPropertyOf(");
            ser_ope(out, sub_property);
            ser_ope(out, super_property);
            out.append(")");
        },
        ObjectPropertyAxiom::EquivalentObjectProperties { properties } => {
            out.append("EquivalentObjectProperties(");
            ser_ope_plain_vec(properties, out);
            out.append(")");
        },
        ObjectPropertyAxiom::DisjointObjectProperties { properties } => {
            out.append("DisjointObjectProperties(");
            ser_ope_plain_vec(properties, out);
            out.append(")");
        },
        ObjectPropertyAxiom::InverseObjectProperties { prop1, prop2 } => {
            out.append("InverseObjectProperties(");
            ser_ope(out, prop1);
            ser_ope(out, prop2);
            out.append(")");
        },
        ObjectPropertyAxiom::ObjectPropertyDomain { property, domain } => {
            out.append("ObjectPropertyDomain(");
            ser_ope(out, property);
            ser_ce(out, domain);
            out.append(")");
        },
        ObjectPropertyAxiom::ObjectPropertyRange { property, range } => {
            out.append("ObjectPropertyRange(");
            ser_ope(out, property);
            ser_ce(out, range);
            out.append(")");
        },
        ObjectPropertyAxiom::FunctionalObjectProperty { property } => {
            out.append("FunctionalObjectProperty(");
            ser_ope(out, property);
            out.append(")");
        },
        ObjectPropertyAxiom::InverseFunctionalObjectProperty { property } => {
            out.append("InverseFunctionalObjectProperty(");
            ser_ope(out, property);
            out.append(")");
        },
        ObjectPropertyAxiom::ReflexiveObjectProperty { property } => {
            out.append("ReflexiveObjectProperty(");
            ser_ope(out, property);
            out.append(")");
        },
        ObjectPropertyAxiom::IrreflexiveObjectProperty { property } => {
            out.append("IrreflexiveObjectProperty(");
            ser_ope(out, property);
            out.append(")");
        },
        ObjectPropertyAxiom::SymmetricObjectProperty { property } => {
            out.append("SymmetricObjectProperty(");
            ser_ope(out, property);
            out.append(")");
        },
        ObjectPropertyAxiom::AsymmetricObjectProperty { property } => {
            out.append("AsymmetricObjectProperty(");
            ser_ope(out, property);
            out.append(")");
        },
        ObjectPropertyAxiom::TransitiveObjectProperty { property } => {
            out.append("TransitiveObjectProperty(");
            ser_ope(out, property);
            out.append(")");
        },
    }
    proof {
        assert(out@ =~= base + spec_ser_op_axiom(a@));
    }
}

/// Appends the renderings of a vector of object property expressions
/// outside the recursive cluster.
fn ser_ope_plain_vec(ps: &Vec<ObjectPropertyExpression>, out: &mut String)
    ensures
        final(out)@ == old(out)@ + spec_ser_ope_seq(spec_ope_seq(ps@)),
{
    let ghost psv = spec_ope_seq(ps@);
    let ghost base = out@;
    proof {
        lemma_spec_ope_seq(ps@);
        assert(out@ =~= base + spec_ser_ope_seq(psv.subrange(0, 0)));
    }
    for i in 0..ps.len()
        invariant
            psv == spec_ope_seq(ps@),
            psv.len() == ps@.len(),
            out@ == base + spec_ser_ope_seq(psv.subrange(0, i as int)),
    {
        proof {
            lemma_spec_ope_seq(ps@);
        }
        ser_ope(out, &ps[i]);
        proof {
            assert(psv.subrange(0, i as int + 1).drop_last() =~= psv.subrange(0, i as int));
            assert(psv.subrange(0, i as int + 1).last() == psv[i as int]);
            assert(out@ =~= base + spec_ser_ope_seq(psv.subrange(0, i as int + 1)));
        }
    }
    proof {
        assert(psv.subrange(0, psv.len() as int) =~= psv);
    }
}

/// Appends the rendering of a data property axiom.
fn ser_dp_axiom(out: &mut String, a: &DataPropertyAxiom)
    ensures
        final(out)@ == old(out)@ + spec_ser_dp_axiom(a@),
{
    let ghost base = out@;
    match a {
        DataPropertyAxiom::SubDataPropertyOf { sub_property, super_property } => {
            out.append("SubDataPropertyOf(");
            ser_dp(out, sub_property);
            ser_dp(out, super_property);
            out.append(")");
        },
        DataPropertyAxiom::EquivalentDataProperties { properties } => {
            out.append("EquivalentDataProperties(");
            ser_dp_vec(properties, out);
            out.append(")");
        },
        DataPropertyAxiom::DisjointDataProperties { properties } => {
            out.append("DisjointDataProperties(");
            ser_dp_vec(properties, out);
            out.append(")");
        },
        DataPropertyAxiom::DataPropertyDomain { property, domain } => {
            out.append("DataPropertyDomain(");
            ser_dp(out, property);
            ser_ce(out, domain);
            out.append(")");
        },
        DataPropertyAxiom::DataPropertyRange { property, range } => {
            out.append("DataPropertyRange(");
            ser_dp(out, property);
            ser_dr(out, range);
            out.append(")");
        },
        DataPropertyAxiom::FunctionalDataProperty { property } => {
            out.append("FunctionalDataProperty(");
            ser_dp(out, property);
            out.append(")");
        },
    }
    proof {
        assert(out@ =~= base + spec_ser_dp_axiom(a@));
    }
}

/// Appends the rendering of an assertion.
#[verifier::rlimit(100)]
fn ser_assertion(out: &mut String, a: &Assertion)
    ensures
        final(out)@ == old(out)@ + spec_ser_assertion(a@),
{
    let ghost base = out@;
    match a {
        Assertion::SameIndividual { individuals } => {
            out.append("SameIndividual(");
            ser_individual_vec(individuals, out);
            out.append(")");
        },
        Assertion::DifferentIndividuals { individuals } => {
            out.append("DifferentIndividuals(");
            ser_individual_vec(individuals, out);
            out.append(")");
        },
        Assertion::ClassAssertion { class, individual } => {
            out.append("ClassAssertion(");
            ser_ce(out, class);
            ser_individual(out, individual);
            out.append(")");
        },
        Assertion::ObjectPropertyAssertion { property, source, target } => {
            out.append("ObjectPropertyAssertion(");
            ser_ope(out, property);
            ser_individual(out, source);
            ser_individual(out, target);
            out.append(")");
        },
        Assertion::DataPropertyAssertion { property, source, target } => {
            out.append("DataPropertyAssertion(");
            ser_dp(out, property);
            ser_individual(out, source);
            ser_literal(out, target);
            out.append(")");
        },
        Assertion::NegativeObjectPropertyAssertion { property, source, target } => {
            out.append("NegativeObjectPropertyAssertion(");
            ser_ope(out, property);
            ser_individual(out, source);
            ser_individual(out, target);
            out.append(")");
        },
        Assertion::NegativeDataPropertyAssertion { property, source, target } => {
            out.append("NegativeDataPropertyAssertion(");
            ser_dp(out, property);
            ser_individual(out, source);
            ser_literal(out, target);
            out.append(")");
        },
        Assertion::HasKey { class, object_property_expression, data_property } => {
            out.append("HasKey(Class(");
            ser_iri(out, &class.0);
            out.append(")");
            ser_ope_plain_vec(object_property_expression, out);
            ser_dp_vec(data_property, out);
            out.append(")");
        },
    }
    proof {
        assert(out@ =~= base + spec_ser_assertion(a@));
    }
}

/// Appends the rendering of an axiom of any kind.
fn ser_axiom(out: &mut String, a: &Axiom)
    ensures
        final(out)@ == old(out)@ + spec_ser_axiom(a@),
{
    match a {
        Axiom::Class(x) => ser_class_axiom(out, x),
        Axiom::ObjectProperty(x) => ser_op_axiom(out, x),
        Axiom::DataProperty(x) => ser_dp_axiom(out, x),
        Axiom::Assertion(x) => ser_assertion(out, x),
    }
}

/// Renders an ontology in the canonical whitespace-free functional-style
/// form: parsing the result yields the same imports and axioms back, which
/// a caller can rely on through the parsing and serialization contracts.
pub fn serialize_ontology(o: &Ontology) -> (r: String)
    ensures
        r@ == spec_ser_ontology(o@),
{
    let mut out = String::new();
    out.append("Ontology(");
    let ghost impv = spec_iri_seq(o.direct_imports@);
    let ghost base = out@;
    proof {
        assert(out@ =~= base + spec_ser_import_seq(impv.subrange(0, 0)));
    }
    for i in 0..o.direct_imports.len()
        invariant
            impv == spec_iri_seq(o.direct_imports@),
            impv.len() == o.direct_imports@.len(),
            out@ == base + spec_ser_import_seq(impv.subrange(0, i as int)),
    {
        out.append("Import(");
        ser_iri(&mut out, &o.direct_imports[i]);
        out.append(")");
        proof {
            assert(impv.subrange(0, i as int + 1).drop_last() =~= impv.subrange(0, i as int));
            assert(impv.subrange(0, i as int + 1).last() == impv[i as int]);
            assert(out@ =~= base + spec_ser_import_seq(impv.subrange(0, i as int + 1)));
        }
    }
    proof {
        assert(impv.subrange(0, impv.len() as int) =~= impv);
    }
    let ghost axv = spec_axiom_seq(o.axioms@);
    let ghost base2 = out@;
    proof {
        assert(out@ =~= base2 + spec_ser_axiom_seq(axv.subrange(0, 0)));
    }
    for i in 0..o.axioms.len()
        invariant
            axv == spec_axiom_seq(o.axioms@),
            axv.len() == o.axioms@.len(),
            out@ == base2 + spec_ser_axiom_seq(axv.subrange(0, i as int)),
    {
        ser_axiom(&mut out, &o.axioms[i]);
        proof {
            assert(axv.subrange(0, i as int + 1).drop_last() =~= axv.subrange(0, i as int));
            assert(axv.subrange(0, i as int + 1).last() == axv[i as int]);
            assert(out@ =~= base2 + spec_ser_axiom_seq(axv.subrange(0, i as int + 1)));
        }
    }
    proof {
        assert(axv.subrange(0, axv.len() as int) =~= axv);
    }
    out.append(")");
    proof {
        assert(out@ =~= spec_ser_ontology(o@));
    }
    out
}

} // verus!
