use vstd::prelude::*;
use crate::json::{JsonValue, JsonNumber, field_of, json_get, json_str, json_text, to_json_text};
use crate::text::{chars_of, contains, contains_seq, join, join_strings, push_str, str_eq, strings_view};
use crate::patterns::{regex_error, regex_matches, regex_compile_error, regex_is_match};
use super::types::{ValidationRule, ValidationRuleType, ValidationResult, RuleResult};

verus! {

// ---------------------------------------------------------------------------
// Reading parameters
// ---------------------------------------------------------------------------

/// The parameter named `key`.
pub open spec fn param(params: Seq<(String, JsonValue)>, key: Seq<char>) -> Option<JsonValue> {
    field_of(params, key)
}

pub open spec fn array_of(v: Option<JsonValue>) -> Option<Seq<JsonValue>> {
    match v {
        Some(JsonValue::Array(items)) => Some(items@),
        _ => None,
    }
}

/// The items of the first row of a table given as an array of arrays.
pub open spec fn first_row(data: Seq<JsonValue>) -> Option<Seq<JsonValue>> {
    if data.len() == 0 {
        None
    } else {
        array_of(Some(data[0]))
    }
}

/// The string items among the first `n` items.
pub open spec fn strings_in(items: Seq<JsonValue>, n: int) -> Seq<Seq<char>>
    decreases n,
{
    if n <= 0 {
        Seq::empty()
    } else {
        strings_in(items, n - 1) + match json_str(items[n - 1]) {
            Some(s) => seq![s],
            None => Seq::<Seq<char>>::empty(),
        }
    }
}

pub open spec fn all_strings(items: Seq<JsonValue>) -> Seq<Seq<char>> {
    strings_in(items, items.len() as int)
}

/// `v > 0.0` for a number read as a float; `None` reads as `0.0`.
pub open spec fn above_zero(v: Option<JsonValue>) -> bool {
    match v {
        Some(JsonValue::Number(JsonNumber::PosInt(u))) => u > 0,
        Some(JsonValue::Number(JsonNumber::NegInt(i))) => i > 0,
        Some(JsonValue::Number(JsonNumber::Float { positive, .. })) => positive,
        _ => false,
    }
}

/// `0.0 <= v <= 1.0` for a number read as a float.
pub open spec fn in_unit(n: JsonNumber) -> bool {
    match n {
        JsonNumber::PosInt(u) => u <= 1,
        JsonNumber::NegInt(i) => 0 <= i <= 1,
        JsonNumber::Float { unit, .. } => unit,
    }
}

pub open spec fn has_key(v: JsonValue, key: Seq<char>) -> bool {
    json_get(v, key) is Some
}

pub open spec fn is_number(v: Option<JsonValue>) -> bool {
    v matches Some(JsonValue::Number(_))
}

pub open spec fn slide_type(t: Seq<char>) -> bool {
    t == "title"@ || t == "content"@ || t == "section"@ || t == "thank_you"@
}

// ---------------------------------------------------------------------------
// The rules written out for particular skills
// ---------------------------------------------------------------------------

/// The table's first row has two columns, when the chart is a pie.
pub open spec fn pie_ok(params: Seq<(String, JsonValue)>) -> bool {
    match param(params, "chart_type"@) {
        Some(v) => if json_str(v) == Some("pie"@) {
            match array_of(param(params, "data"@)) {
                Some(data) => match first_row(data) {
                    Some(row) => row.len() == 2,
                    None => false,
                },
                None => false,
            }
        } else {
            true
        },
        None => true,
    }
}

/// Every name listed under `field` is a header of the table; an empty list
/// passes only for the value fields.
pub open spec fn in_headers_ok(rule_name: Seq<char>, field: Seq<char>, params: Seq<(String, JsonValue)>) -> bool {
    match array_of(param(params, field)) {
        Some(arr) => match array_of(param(params, "data"@)) {
            Some(data) => {
                let fields = all_strings(arr);
                let headers = match first_row(data) {
                    Some(row) => all_strings(row),
                    None => Seq::empty(),
                };
                if fields.len() == 0 {
                    rule_name == "values_exist_in_headers"@
                } else {
                    forall|k: int| 0 <= k < fields.len() ==> headers.contains(#[trigger] fields[k])
                }
            },
            None => false,
        },
        None => false,
    }
}

/// Every item of the list `list` is an object with `key` (and, where
/// `nonempty`, there is at least one).
pub open spec fn all_have_ok(params: Seq<(String, JsonValue)>, list: Seq<char>, key: Seq<char>, nonempty: bool) -> bool {
    match array_of(param(params, list)) {
        Some(items) => (!nonempty || items.len() > 0) && forall|k: int|
            0 <= k < items.len() ==> (#[trigger] items[k] is Object && has_key(items[k], key)),
        None => false,
    }
}

pub open spec fn typed_slide(v: JsonValue) -> bool {
    match json_get(v, "type"@) {
        Some(t) => match json_str(t) {
            Some(s) => slide_type(s),
            None => false,
        },
        None => false,
    }
}

pub open spec fn slide_types_ok(params: Seq<(String, JsonValue)>) -> bool {
    match array_of(param(params, "slides"@)) {
        Some(slides) => forall|k: int| 0 <= k < slides.len() ==> typed_slide(#[trigger] slides[k]),
        None => false,
    }
}

pub open spec fn line_item(v: JsonValue) -> bool {
    &&& v is Object
    &&& match json_get(v, "description"@) {
        Some(d) => json_str(d) is Some,
        None => false,
    }
    &&& is_number(json_get(v, "quantity"@))
    &&& is_number(json_get(v, "unit_price"@))
}

pub open spec fn line_items_ok(params: Seq<(String, JsonValue)>) -> bool {
    match array_of(param(params, "line_items"@)) {
        Some(items) => items.len() > 0 && forall|k: int| 0 <= k < items.len() ==> line_item(#[trigger] items[k]),
        None => false,
    }
}

pub open spec fn positive_item(v: JsonValue) -> bool {
    above_zero(json_get(v, "quantity"@)) && above_zero(json_get(v, "unit_price"@))
}

pub open spec fn positive_items_ok(params: Seq<(String, JsonValue)>) -> bool {
    match array_of(param(params, "line_items"@)) {
        Some(items) => forall|k: int| 0 <= k < items.len() ==> positive_item(#[trigger] items[k]),
        None => false,
    }
}

pub open spec fn tax_rate_ok(params: Seq<(String, JsonValue)>) -> bool {
    match param(params, "tax_rate"@) {
        Some(JsonValue::Number(n)) => in_unit(n),
        Some(JsonValue::Null) => true,
        None => true,
        _ => false,
    }
}

pub open spec fn markdown_ok(params: Seq<(String, JsonValue)>) -> bool {
    match param(params, "markdown_text"@) {
        Some(JsonValue::Str(s)) => s@.contains('#'),
        _ => false,
    }
}

pub open spec fn row_of_len(v: JsonValue, n: nat) -> bool {
    match array_of(Some(v)) {
        Some(r) => r.len() == n,
        None => false,
    }
}

pub open spec fn consistent_cols_ok(params: Seq<(String, JsonValue)>) -> bool {
    match array_of(param(params, "data"@)) {
        Some(data) => if data.len() == 0 {
            true
        } else {
            let first_len: nat = match first_row(data) {
                Some(row) => row.len(),
                None => 0,
            };
            first_len != 0 && forall|k: int| 0 <= k < data.len() ==> row_of_len(#[trigger] data[k], first_len)
        },
        None => false,
    }
}

pub open spec fn min_rows_ok(params: Seq<(String, JsonValue)>) -> bool {
    match array_of(param(params, "data"@)) {
        Some(data) => data.len() >= 2,
        None => false,
    }
}

pub open spec fn min_cols_ok(params: Seq<(String, JsonValue)>) -> bool {
    match array_of(param(params, "data"@)) {
        Some(data) => match first_row(data) {
            Some(row) => row.len() >= 2,
            None => false,
        },
        None => false,
    }
}

/// Whether the custom rule of that name accepts the parameters; an unknown
/// name accepts everything.
pub open spec fn custom_passes(rule_name: Seq<char>, field: Seq<char>, params: Seq<(String, JsonValue)>) -> bool {
    if rule_name == "chart_type_for_pie"@ {
        pie_ok(params)
    } else if rule_name == "rows_exist_in_headers"@ || rule_name == "values_exist_in_headers"@ {
        in_headers_ok(rule_name, field, params)
    } else if rule_name == "sections_have_heading"@ {
        all_have_ok(params, "sections"@, "heading"@, false)
    } else if rule_name == "sections_have_content"@ {
        all_have_ok(params, "sections"@, "content"@, false)
    } else if rule_name == "slides_have_title"@ {
        all_have_ok(params, "slides"@, "title"@, true)
    } else if rule_name == "slides_have_type"@ {
        all_have_ok(params, "slides"@, "type"@, true)
    } else if rule_name == "slide_types_valid"@ {
        slide_types_ok(params)
    } else if rule_name == "line_items_valid"@ {
        line_items_ok(params)
    } else if rule_name == "line_items_positive"@ {
        positive_items_ok(params)
    } else if rule_name == "tax_rate_range"@ {
        tax_rate_ok(params)
    } else if rule_name == "markdown_has_content"@ {
        markdown_ok(params)
    } else if rule_name == "data_consistent_cols"@ {
        consistent_cols_ok(params)
    } else if rule_name == "data_min_rows"@ {
        min_rows_ok(params)
    } else if rule_name == "data_min_cols"@ {
        min_cols_ok(params)
    } else {
        true
    }
}

/// Law: the section and slide rules ask for a key in every item of a list.
/// `sections_have_content` passes exactly when the `sections` parameter is
/// an array every element of which is an object with a `content` key (an
/// empty array passes); `sections_have_heading` likewise with `heading`;
/// `slides_have_title` and `slides_have_type` exactly when `slides` is a
/// non-empty array of objects each with a `title` (resp. `type`) key.
pub proof fn lemma_list_rules(field: Seq<char>, params: Seq<(String, JsonValue)>)
    ensures
        custom_passes("sections_have_content"@, field, params) == (match param(params, "sections"@) {
            Some(JsonValue::Array(items)) => forall|k: int|
                0 <= k < items@.len() ==> (#[trigger] items@[k] is Object && json_get(items@[k], "content"@) is Some),
            _ => false,
        }),
        custom_passes("sections_have_heading"@, field, params) == (match param(params, "sections"@) {
            Some(JsonValue::Array(items)) => forall|k: int|
                0 <= k < items@.len() ==> (#[trigger] items@[k] is Object && json_get(items@[k], "heading"@) is Some),
            _ => false,
        }),
        custom_passes("slides_have_title"@, field, params) == (match param(params, "slides"@) {
            Some(JsonValue::Array(items)) => items@.len() > 0 && forall|k: int|
                0 <= k < items@.len() ==> (#[trigger] items@[k] is Object && json_get(items@[k], "title"@) is Some),
            _ => false,
        }),
        custom_passes("slides_have_type"@, field, params) == (match param(params, "slides"@) {
            Some(JsonValue::Array(items)) => items@.len() > 0 && forall|k: int|
                0 <= k < items@.len() ==> (#[trigger] items@[k] is Object && json_get(items@[k], "type"@) is Some),
            _ => false,
        }),
{
    lemma_rule_names_differ();
    assert(custom_passes("sections_have_content"@, field, params) == all_have_ok(params, "sections"@, "content"@, false));
    assert(custom_passes("sections_have_heading"@, field, params) == all_have_ok(params, "sections"@, "heading"@, false));
    assert(custom_passes("slides_have_title"@, field, params) == all_have_ok(params, "slides"@, "title"@, true));
    assert(custom_passes("slides_have_type"@, field, params) == all_have_ok(params, "slides"@, "type"@, true));
}

proof fn lemma_rule_names_differ()
    ensures
        "sections_have_content"@ != "chart_type_for_pie"@,
        "sections_have_content"@ != "rows_exist_in_headers"@,
        "sections_have_content"@ != "values_exist_in_headers"@,
        "sections_have_content"@ != "sections_have_heading"@,
        "sections_have_heading"@ != "chart_type_for_pie"@,
        "sections_have_heading"@ != "rows_exist_in_headers"@,
        "sections_have_heading"@ != "values_exist_in_headers"@,
        "slides_have_title"@ != "chart_type_for_pie"@,
        "slides_have_title"@ != "rows_exist_in_headers"@,
        "slides_have_title"@ != "values_exist_in_headers"@,
        "slides_have_title"@ != "sections_have_heading"@,
        "slides_have_title"@ != "sections_have_content"@,
        "slides_have_type"@ != "chart_type_for_pie"@,
        "slides_have_type"@ != "rows_exist_in_headers"@,
        "slides_have_type"@ != "values_exist_in_headers"@,
        "slides_have_type"@ != "sections_have_heading"@,
        "slides_have_type"@ != "sections_have_content"@,
        "slides_have_type"@ != "slides_have_title"@,
{
    reveal_strlit("chart_type_for_pie");
    reveal_strlit("rows_exist_in_headers");
    reveal_strlit("values_exist_in_headers");
    reveal_strlit("sections_have_heading");
    reveal_strlit("sections_have_content");
    reveal_strlit("slides_have_title");
    reveal_strlit("slides_have_type");
    assert("slides_have_title"@.len() == 17);
    assert("slides_have_type"@.len() == 16);
    assert("chart_type_for_pie"@.len() == 18);
    assert("values_exist_in_headers"@.len() == 23);
    assert("rows_exist_in_headers"@.len() == 21);
    assert("sections_have_content"@.len() == 21);
    assert("sections_have_heading"@.len() == 21);
    assert("sections_have_content"@[14] != "sections_have_heading"@[14]);
    assert("sections_have_content"@[0] != "rows_exist_in_headers"@[0]);
    assert("sections_have_heading"@[0] != "rows_exist_in_headers"@[0]);
}

proof fn lemma_data_rule_names_differ()
    ensures
        "markdown_has_content"@ != "chart_type_for_pie"@,
        "markdown_has_content"@ != "rows_exist_in_headers"@,
        "markdown_has_content"@ != "values_exist_in_headers"@,
        "markdown_has_content"@ != "sections_have_heading"@,
        "markdown_has_content"@ != "sections_have_content"@,
        "markdown_has_content"@ != "slides_have_title"@,
        "markdown_has_content"@ != "slides_have_type"@,
        "markdown_has_content"@ != "slide_types_valid"@,
        "markdown_has_content"@ != "line_items_valid"@,
        "markdown_has_content"@ != "line_items_positive"@,
        "markdown_has_content"@ != "tax_rate_range"@,
        "data_min_rows"@ != "chart_type_for_pie"@,
        "data_min_rows"@ != "rows_exist_in_headers"@,
        "data_min_rows"@ != "values_exist_in_headers"@,
        "data_min_rows"@ != "sections_have_heading"@,
        "data_min_rows"@ != "sections_have_content"@,
        "data_min_rows"@ != "slides_have_title"@,
        "data_min_rows"@ != "slides_have_type"@,
        "data_min_rows"@ != "slide_types_valid"@,
        "data_min_rows"@ != "line_items_valid"@,
        "data_min_rows"@ != "line_items_positive"@,
        "data_min_rows"@ != "tax_rate_range"@,
        "data_min_cols"@ != "chart_type_for_pie"@,
        "data_min_cols"@ != "rows_exist_in_headers"@,
        "data_min_cols"@ != "values_exist_in_headers"@,
        "data_min_cols"@ != "sections_have_heading"@,
        "data_min_cols"@ != "sections_have_content"@,
        "data_min_cols"@ != "slides_have_title"@,
        "data_min_cols"@ != "slides_have_type"@,
        "data_min_cols"@ != "slide_types_valid"@,
        "data_min_cols"@ != "line_items_valid"@,
        "data_min_cols"@ != "line_items_positive"@,
        "data_min_cols"@ != "tax_rate_range"@,
        "data_min_rows"@ != "markdown_has_content"@,
        "data_min_rows"@ != "data_consistent_cols"@,
        "data_min_cols"@ != "markdown_has_content"@,
        "data_min_cols"@ != "data_consistent_cols"@,
        "data_min_cols"@ != "data_min_rows"@,
{
    reveal_strlit("chart_type_for_pie");
    reveal_strlit("rows_exist_in_headers");
    reveal_strlit("values_exist_in_headers");
    reveal_strlit("sections_have_heading");
    reveal_strlit("sections_have_content");
    reveal_strlit("slides_have_title");
    reveal_strlit("slides_have_type");
    reveal_strlit("slide_types_valid");
    reveal_strlit("line_items_valid");
    reveal_strlit("line_items_positive");
    reveal_strlit("tax_rate_range");
    reveal_strlit("markdown_has_content");
    reveal_strlit("data_consistent_cols");
    reveal_strlit("data_min_rows");
    reveal_strlit("data_min_cols");
    assert("markdown_has_content"@[0] == 'm');
    assert("data_min_rows"@[0] == 'd' && "data_min_cols"@[0] == 'd');
    assert("data_min_rows"@[9] != "data_min_cols"@[9]);
    assert("data_min_rows"@.len() == 13 && "data_consistent_cols"@.len() == 20);
    assert("chart_type_for_pie"@[0] == 'c' && "rows_exist_in_headers"@[0] == 'r' && "values_exist_in_headers"@[0] == 'v');
    assert("sections_have_heading"@[0] == 's' && "sections_have_content"@[0] == 's' && "slides_have_title"@[0] == 's');
    assert("slides_have_type"@[0] == 's' && "slide_types_valid"@[0] == 's' && "line_items_valid"@[0] == 'l');
    assert("line_items_positive"@[0] == 'l' && "tax_rate_range"@[0] == 't');
}

/// Law: the table and text rules look at one parameter each.
/// `markdown_has_content` passes exactly when `markdown_text` is a string
/// holding a `#`; `data_min_rows` exactly when `data` is an array of at
/// least two rows; `data_min_cols` exactly when `data` is an array whose
/// first row is an array of at least two cells.
pub proof fn lemma_data_rules(field: Seq<char>, params: Seq<(String, JsonValue)>)
    ensures
        custom_passes("markdown_has_content"@, field, params) == (match param(params, "markdown_text"@) {
            Some(JsonValue::Str(s)) => s@.contains('#'),
            _ => false,
        }),
        custom_passes("data_min_rows"@, field, params) == (match param(params, "data"@) {
            Some(JsonValue::Array(d)) => d@.len() >= 2,
            _ => false,
        }),
        custom_passes("data_min_cols"@, field, params) == (match param(params, "data"@) {
            Some(JsonValue::Array(d)) => d@.len() > 0 && (match d@[0] {
                JsonValue::Array(r) => r@.len() >= 2,
                _ => false,
            }),
            _ => false,
        }),
{
    lemma_data_rule_names_differ();
    assert(custom_passes("markdown_has_content"@, field, params) == markdown_ok(params));
    assert(custom_passes("data_min_rows"@, field, params) == min_rows_ok(params));
    assert(custom_passes("data_min_cols"@, field, params) == min_cols_ok(params));
}

pub(crate) fn param_get<'a>(params: &'a Vec<(String, JsonValue)>, key: &str) -> (r: Option<&'a JsonValue>)
    ensures
        match param(params@, key@) {
            Some(v) => r matches Some(w) && *w == v,
            None => r is None,
        },
{
    let mut i: usize = 0;
    proof {
        assert(params@.skip(0) =~= params@);
    }
    while i < params.len()
        invariant
            i <= params@.len(),
            field_of(params@.skip(i as int), key@) == field_of(params@, key@),
        decreases params@.len() - i,
    {
        proof {
            assert(params@.skip(i as int).drop_first() =~= params@.skip(i + 1));
            assert(params@.skip(i as int)[0] == params@[i as int]);
        }
        if str_eq(params[i].0.as_str(), key) {
            return Some(&params[i].1);
        }
        i = i + 1;
    }
    None
}

pub(crate) fn array_param<'a>(params: &'a Vec<(String, JsonValue)>, key: &str) -> (r: Option<&'a Vec<JsonValue>>)
    ensures
        match array_of(param(params@, key@)) {
            Some(items) => r matches Some(v) && v@ == items,
            None => r is None,
        },
{
    match param_get(params, key) {
        Some(v) => v.as_array(),
        None => None,
    }
}

fn first_row_of(data: &Vec<JsonValue>) -> (r: Option<&Vec<JsonValue>>)
    ensures
        match first_row(data@) {
            Some(row) => r matches Some(v) && v@ == row,
            None => r is None,
        },
{
    if data.len() == 0 {
        None
    } else {
        data[0].as_array()
    }
}

fn strings_of(items: &Vec<JsonValue>) -> (r: Vec<String>)
    ensures
        strings_view(r@) == all_strings(items@),
{
    let mut out: Vec<String> = Vec::new();
    let mut i: usize = 0;
    while i < items.len()
        invariant
            i <= items@.len(),
            strings_view(out@) == strings_in(items@, i as int),
        decreases items@.len() - i,
    {
        let ghost before = out@;
        match items[i].as_str() {
            Some(s) => {
                out.push(s.to_owned());
                proof {
                    assert(strings_view(out@) =~= strings_view(before).push(s@));
                }
            },
            None => {},
        }
        proof {
            assert(strings_view(out@) =~= strings_in(items@, i + 1));
        }
        i = i + 1;
    }
    out
}

fn contains_string(v: &Vec<String>, s: &str) -> (b: bool)
    ensures
        b == strings_view(v@).contains(s@),
{
    let mut i: usize = 0;
    while i < v.len()
        invariant
            i <= v@.len(),
            forall|j: int| 0 <= j < i ==> v@[j]@ != s@,
        decreases v@.len() - i,
    {
        if str_eq(v[i].as_str(), s) {
            proof {
                assert(strings_view(v@)[i as int] == s@);
            }
            return true;
        }
        i = i + 1;
    }
    proof {
        if strings_view(v@).contains(s@) {
            let j = choose|j: int| 0 <= j < strings_view(v@).len() && strings_view(v@)[j] == s@;
            assert(v@[j]@ == s@);
        }
    }
    false
}

fn is_number_exec(v: Option<&JsonValue>) -> (b: bool)
    ensures
        b == is_number(match v {
            Some(w) => Some(*w),
            None => None,
        }),
{
    match v {
        Some(JsonValue::Number(_)) => true,
        _ => false,
    }
}

fn above_zero_exec(v: Option<&JsonValue>) -> (b: bool)
    ensures
        b == above_zero(match v {
            Some(w) => Some(*w),
            None => None,
        }),
{
    match v {
        Some(JsonValue::Number(JsonNumber::PosInt(u))) => *u > 0,
        Some(JsonValue::Number(JsonNumber::NegInt(i))) => *i > 0,
        Some(JsonValue::Number(JsonNumber::Float { positive, .. })) => *positive,
        _ => false,
    }
}

fn pie_exec(params: &Vec<(String, JsonValue)>) -> (b: bool)
    ensures
        b == pie_ok(params@),
{
    let is_pie = match param_get(params, "chart_type") {
        Some(v) => match v.as_str() {
            Some(t) => str_eq(t, "pie"),
            None => false,
        },
        None => false,
    };
    if !is_pie {
        return true;
    }
    match array_param(params, "data") {
        Some(data) => match first_row_of(data) {
            Some(row) => row.len() == 2,
            None => false,
        },
        None => false,
    }
}

fn in_headers_exec(name: &str, field: &str, params: &Vec<(String, JsonValue)>) -> (b: bool)
    ensures
        b == in_headers_ok(name@, field@, params@),
{
    let arr = match array_param(params, field) {
        Some(a) => a,
        None => {
            return false;
        },
    };
    let data = match array_param(params, "data") {
        Some(d) => d,
        None => {
            return false;
        },
    };
    let fields = strings_of(arr);
    let headers = match first_row_of(data) {
        Some(row) => strings_of(row),
        None => Vec::new(),
    };
    let ghost fv = all_strings(arr@);
    let ghost hv = match first_row(data@) {
        Some(row) => all_strings(row),
        None => Seq::<Seq<char>>::empty(),
    };
    proof {
        assert(strings_view(headers@) =~= hv);
        assert(strings_view(fields@) == fv);
    }
    if fields.len() == 0 {
        return str_eq(name, "values_exist_in_headers");
    }
    let mut k: usize = 0;
    while k < fields.len()
        invariant
            k <= fields@.len(),
            array_of(param(params@, field@)) == Some(arr@),
            array_of(param(params@, "data"@)) == Some(data@),
            fv == all_strings(arr@),
            hv == match first_row(data@) {
                Some(row) => all_strings(row),
                None => Seq::<Seq<char>>::empty(),
            },
            strings_view(fields@) == fv,
            strings_view(headers@) == hv,
            forall|q: int| 0 <= q < k ==> hv.contains(#[trigger] fv[q]),
        decreases fields@.len() - k,
    {
        proof {
            assert(fv[k as int] == fields@[k as int]@);
        }
        if !contains_string(&headers, fields[k].as_str()) {
            proof {
                assert(!hv.contains(fv[k as int]));
            }
            return false;
        }
        k = k + 1;
    }
    true
}

fn all_have_exec(params: &Vec<(String, JsonValue)>, list: &str, key: &str, nonempty: bool) -> (b: bool)
    ensures
        b == all_have_ok(params@, list@, key@, nonempty),
{
    let items = match array_param(params, list) {
        Some(items) => items,
        None => {
            return false;
        },
    };
    if nonempty && items.len() == 0 {
        return false;
    }
    let mut i: usize = 0;
    while i < items.len()
        invariant
            i <= items@.len(),
            array_of(param(params@, list@)) == Some(items@),
            forall|k: int| 0 <= k < i ==> (#[trigger] items@[k] is Object && has_key(items@[k], key@)),
        decreases items@.len() - i,
    {
        if !items[i].is_object() || items[i].get(key).is_none() {
            proof {
                assert(!(items@[i as int] is Object && has_key(items@[i as int], key@)));
            }
            return false;
        }
        i = i + 1;
    }
    true
}

fn slide_types_exec(params: &Vec<(String, JsonValue)>) -> (b: bool)
    ensures
        b == slide_types_ok(params@),
{
    let slides = match array_param(params, "slides") {
        Some(s) => s,
        None => {
            return false;
        },
    };
    let mut i: usize = 0;
    while i < slides.len()
        invariant
            i <= slides@.len(),
            array_of(param(params@, "slides"@)) == Some(slides@),
            forall|k: int| 0 <= k < i ==> typed_slide(#[trigger] slides@[k]),
        decreases slides@.len() - i,
    {
        let ok = match slides[i].get("type") {
            Some(t) => match t.as_str() {
                Some(s) => str_eq(s, "title") || str_eq(s, "content") || str_eq(s, "section") || str_eq(s, "thank_you"),
                None => false,
            },
            None => false,
        };
        if !ok {
            proof {
                let sp = array_of(param(params@, "slides"@)).unwrap();
                assert(sp[i as int] == slides@[i as int]);
                assert(!typed_slide(sp[i as int]));
            }
            return false;
        }
        i = i + 1;
    }
    true
}

fn line_items_exec(params: &Vec<(String, JsonValue)>) -> (b: bool)
    ensures
        b == line_items_ok(params@),
{
    let items = match array_param(params, "line_items") {
        Some(items) => items,
        None => {
            return false;
        },
    };
    if items.len() == 0 {
        return false;
    }
    let mut i: usize = 0;
    while i < items.len()
        invariant
            i <= items@.len(),
            array_of(param(params@, "line_items"@)) == Some(items@),
            forall|k: int| 0 <= k < i ==> line_item(#[trigger] items@[k]),
        decreases items@.len() - i,
    {
        let item = &items[i];
        let desc = match item.get("description") {
            Some(d) => d.as_str().is_some(),
            None => false,
        };
        if !(item.is_object() && desc && is_number_exec(item.get("quantity")) && is_number_exec(item.get("unit_price"))) {
            proof {
                assert(!line_item(items@[i as int]));
            }
            return false;
        }
        i = i + 1;
    }
    true
}

fn positive_items_exec(params: &Vec<(String, JsonValue)>) -> (b: bool)
    ensures
        b == positive_items_ok(params@),
{
    let items = match array_param(params, "line_items") {
        Some(items) => items,
        None => {
            return false;
        },
    };
    let mut i: usize = 0;
    while i < items.len()
        invariant
            i <= items@.len(),
            array_of(param(params@, "line_items"@)) == Some(items@),
            forall|k: int| 0 <= k < i ==> positive_item(#[trigger] items@[k]),
        decreases items@.len() - i,
    {
        if !(above_zero_exec(items[i].get("quantity")) && above_zero_exec(items[i].get("unit_price"))) {
            proof {
                let sp = array_of(param(params@, "line_items"@)).unwrap();
                assert(sp[i as int] == items@[i as int]);
                assert(!positive_item(sp[i as int]));
            }
            return false;
        }
        i = i + 1;
    }
    true
}

fn tax_rate_exec(params: &Vec<(String, JsonValue)>) -> (b: bool)
    ensures
        b == tax_rate_ok(params@),
{
    match param_get(params, "tax_rate") {
        Some(JsonValue::Number(n)) => match n {
            JsonNumber::PosInt(u) => *u <= 1,
            JsonNumber::NegInt(i) => 0 <= *i && *i <= 1,
            JsonNumber::Float { unit, .. } => *unit,
        },
        Some(JsonValue::Null) => true,
        None => true,
        _ => false,
    }
}

fn markdown_exec(params: &Vec<(String, JsonValue)>) -> (b: bool)
    ensures
        b == markdown_ok(params@),
{
    match param_get(params, "markdown_text") {
        Some(JsonValue::Str(s)) => {
            let cs = chars_of(s.as_str());
            let mut i: usize = 0;
            while i < cs.len()
                invariant
                    i <= cs@.len(),
                    cs@ == s@,
                    param(params@, "markdown_text"@) == Some(JsonValue::Str(*s)),
                    forall|k: int| 0 <= k < i ==> cs@[k] != '#',
                decreases cs@.len() - i,
            {
                if cs[i] == '#' {
                    proof {
                        assert(s@[i as int] == '#');
                    }
                    return true;
                }
                i = i + 1;
            }
            false
        },
        _ => false,
    }
}

fn consistent_cols_exec(params: &Vec<(String, JsonValue)>) -> (b: bool)
    ensures
        b == consistent_cols_ok(params@),
{
    let data = match array_param(params, "data") {
        Some(d) => d,
        None => {
            return false;
        },
    };
    if data.len() == 0 {
        return true;
    }
    let first_len = match first_row_of(data) {
        Some(row) => row.len(),
        None => 0,
    };
    if first_len == 0 {
        return false;
    }
    let mut i: usize = 0;
    while i < data.len()
        invariant
            i <= data@.len(),
            array_of(param(params@, "data"@)) == Some(data@),
            first_len as nat == match first_row(data@) {
                Some(row) => row.len(),
                None => 0nat,
            },
            forall|k: int| 0 <= k < i ==> row_of_len(#[trigger] data@[k], first_len as nat),
        decreases data@.len() - i,
    {
        let ok = match data[i].as_array() {
            Some(r) => r.len() == first_len,
            None => false,
        };
        if !ok {
            proof {
                assert(!row_of_len(data@[i as int], first_len as nat));
            }
            return false;
        }
        i = i + 1;
    }
    true
}

/// Evaluates a custom rule by its name.
pub fn evaluate_custom_rule(rule: &ValidationRule, params: &Vec<(String, JsonValue)>) -> (b: bool)
    ensures
        b == custom_passes(rule.name@, rule.field@, params@),
{
    let name = rule.name.as_str();
    if str_eq(name, "chart_type_for_pie") {
        pie_exec(params)
    } else if str_eq(name, "rows_exist_in_headers") || str_eq(name, "values_exist_in_headers") {
        in_headers_exec(name, rule.field.as_str(), params)
    } else if str_eq(name, "sections_have_heading") {
        all_have_exec(params, "sections", "heading", false)
    } else if str_eq(name, "sections_have_content") {
        all_have_exec(params, "sections", "content", false)
    } else if str_eq(name, "slides_have_title") {
        all_have_exec(params, "slides", "title", true)
    } else if str_eq(name, "slides_have_type") {
        all_have_exec(params, "slides", "type", true)
    } else if str_eq(name, "slide_types_valid") {
        slide_types_exec(params)
    } else if str_eq(name, "line_items_valid") {
        line_items_exec(params)
    } else if str_eq(name, "line_items_positive") {
        positive_items_exec(params)
    } else if str_eq(name, "tax_rate_range") {
        tax_rate_exec(params)
    } else if str_eq(name, "markdown_has_content") {
        markdown_exec(params)
    } else if str_eq(name, "data_consistent_cols") {
        consistent_cols_exec(params)
    } else if str_eq(name, "data_min_rows") {
        match array_param(params, "data") {
            Some(data) => data.len() >= 2,
            None => false,
        }
    } else if str_eq(name, "data_min_cols") {
        match array_param(params, "data") {
            Some(data) => match first_row_of(data) {
                Some(row) => row.len() >= 2,
                None => false,
            },
            None => false,
        }
    } else {
        true
    }
}

// ---------------------------------------------------------------------------
// Rules of every type
// ---------------------------------------------------------------------------

/// A present value that is not empty: a non-empty array or string, an
/// object, a number or a boolean.
pub open spec fn asserted(v: Option<JsonValue>) -> bool {
    match v {
        Some(JsonValue::Array(a)) => a@.len() > 0,
        Some(JsonValue::Str(s)) => s@.len() > 0,
        Some(JsonValue::Object(_)) => true,
        Some(JsonValue::Number(_)) => true,
        Some(JsonValue::Bool(_)) => true,
        Some(JsonValue::Null) => false,
        None => false,
    }
}

pub open spec fn opt_strings(o: Option<Vec<String>>) -> Seq<Seq<char>> {
    match o {
        Some(v) => strings_view(v@),
        None => Seq::empty(),
    }
}

/// Whether a rule passes, or the message it stops with (an invalid pattern).
pub open spec fn rule_passes(rule: ValidationRule, params: Seq<(String, JsonValue)>) -> Result<bool, Seq<char>> {
    let value = param(params, rule.field@);
    match rule.rule_type {
        ValidationRuleType::Assert => Ok(asserted(value)),
        ValidationRuleType::Regex => match value {
            Some(JsonValue::Str(s)) => match rule.pattern {
                Some(p) => match regex_error(p@) {
                    Some(e) => Err("Invalid regex pattern '"@ + p@ + "': "@ + e),
                    None => Ok(regex_matches(p@, s@)),
                },
                None => Ok(false),
            },
            _ => Ok(false),
        },
        ValidationRuleType::Enum => match value {
            Some(JsonValue::Str(s)) => match rule.values {
                Some(vs) => Ok(strings_view(vs@).contains(s@)),
                None => Ok(false),
            },
            _ => Ok(false),
        },
        ValidationRuleType::Custom => Ok(custom_passes(rule.name@, rule.field@, params)),
    }
}

/// The message of a failed enumeration rule: the rule's message, the value
/// as JSON, the valid values.
pub open spec fn enum_message(rule: ValidationRule, params: Seq<(String, JsonValue)>) -> Seq<char> {
    rule.message@ + ": "@ + match param(params, rule.field@) {
        Some(v) => json_text(v),
        None => Seq::empty(),
    } + ". Valid values: ["@ + join(opt_strings(rule.values), ", "@) + "]"@
}

/// The result a rule gives on the parameters.
pub open spec fn rule_result_ok(r: RuleResult, rule: ValidationRule, params: Seq<(String, JsonValue)>) -> bool {
    &&& r.rule_name@ == rule.name@
    &&& match rule_passes(rule, params) {
        Err(m) => !r.passed && r.message@ == m,
        Ok(p) => {
            &&& r.passed == p
            &&& r.message@ == if p {
                rule.name@ + ": ok"@
            } else if rule.rule_type == ValidationRuleType::Enum {
                enum_message(rule, params)
            } else {
                rule.message@
            }
        },
    }
}

fn ok_message(name: &str) -> (r: String)
    ensures
        r@ == name@ + ": ok"@,
{
    let mut m = String::new();
    push_str(&mut m, name);
    push_str(&mut m, ": ok");
    m
}

/// Evaluates one rule on the parameters.
pub fn evaluate_rule(rule: &ValidationRule, params: &Vec<(String, JsonValue)>) -> (r: RuleResult)
    ensures
        rule_result_ok(r, *rule, params@),
{
    let value = param_get(params, rule.field.as_str());
    let passed = match rule.rule_type {
        ValidationRuleType::Assert => match value {
            Some(JsonValue::Array(a)) => a.len() > 0,
            Some(JsonValue::Str(s)) => s.as_str().unicode_len() > 0,
            Some(JsonValue::Object(_)) => true,
            Some(JsonValue::Number(_)) => true,
            Some(JsonValue::Bool(_)) => true,
            Some(JsonValue::Null) => false,
            None => false,
        },
        ValidationRuleType::Regex => match value {
            Some(JsonValue::Str(s)) => match &rule.pattern {
                Some(p) => match regex_compile_error(p.as_str()) {
                    Some(e) => {
                        let mut m = String::new();
                        push_str(&mut m, "Invalid regex pattern '");
                        push_str(&mut m, p.as_str());
                        push_str(&mut m, "': ");
                        push_str(&mut m, e.as_str());
                        return RuleResult { rule_name: rule.name.clone(), passed: false, message: m };
                    },
                    None => regex_is_match(p.as_str(), s.as_str()),
                },
                None => false,
            },
            _ => false,
        },
        ValidationRuleType::Enum => match value {
            Some(JsonValue::Str(s)) => match &rule.values {
                Some(vs) => contains_string(vs, s.as_str()),
                None => false,
            },
            _ => false,
        },
        ValidationRuleType::Custom => evaluate_custom_rule(rule, params),
    };
    let message = if passed {
        ok_message(rule.name.as_str())
    } else if rule.rule_type == ValidationRuleType::Enum {
        let mut m = String::new();
        push_str(&mut m, rule.message.as_str());
        push_str(&mut m, ": ");
        match value {
            Some(v) => push_str(&mut m, to_json_text(v).as_str()),
            None => {},
        }
        push_str(&mut m, ". Valid values: [");
        let valid = match &rule.values {
            Some(vs) => join_strings(vs, ", "),
            None => String::new(),
        };
        proof {
            if rule.values is None {
                assert(join(opt_strings(rule.values), ", "@) =~= Seq::<char>::empty());
            }
        }
        push_str(&mut m, valid.as_str());
        push_str(&mut m, "]");
        proof {
            assert(m@ =~= enum_message(*rule, params@));
        }
        m
    } else {
        rule.message.clone()
    };
    RuleResult { rule_name: rule.name.clone(), passed, message }
}

/// Evaluates every rule of a skill on the parameters, in order; the skill
/// passes when all of them do.
pub fn validate_skill_inputs(skill_name: &str, rules: &Vec<ValidationRule>, params: &Vec<(String, JsonValue)>) -> (r: ValidationResult)
    ensures
        r.skill_name@ == skill_name@,
        r.rule_results@.len() == rules@.len(),
        forall|k: int| 0 <= k < rules@.len() ==> rule_result_ok(#[trigger] r.rule_results@[k], rules@[k], params@),
        r.passed == forall|k: int| 0 <= k < rules@.len() ==> (#[trigger] r.rule_results@[k]).passed,
{
    let mut results: Vec<RuleResult> = Vec::new();
    let mut all_passed = true;
    let mut i: usize = 0;
    while i < rules.len()
        invariant
            i <= rules@.len(),
            results@.len() == i,
            forall|k: int| 0 <= k < i ==> rule_result_ok(#[trigger] results@[k], rules@[k], params@),
            all_passed == forall|k: int| 0 <= k < i ==> (#[trigger] results@[k]).passed,
        decreases rules@.len() - i,
    {
        let result = evaluate_rule(&rules[i], params);
        let ghost before = results@;
        let ghost ok = result.passed;
        all_passed = all_passed && result.passed;
        results.push(result);
        proof {
            assert(results@[i as int].passed == ok);
            assert forall|k: int| 0 <= k < i implies results@[k] == before[k] by {}
            if all_passed {
                assert forall|k: int| 0 <= k < i + 1 implies (#[trigger] results@[k]).passed by {
                    if k < i {
                        assert(before[k].passed);
                    }
                }
            } else {
                if !ok {
                    assert(!results@[i as int].passed);
                } else {
                    let k = choose|k: int| 0 <= k < i && !(#[trigger] before[k]).passed;
                    assert(!results@[k].passed);
                }
            }
        }
        i = i + 1;
    }
    ValidationResult { skill_name: skill_name.to_owned(), passed: all_passed, rule_results: results }
}

} // verus!
