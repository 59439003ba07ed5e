//! Attribute-name and property-name mapping for irregular HTML attributes.
//!
//! Some HTML attributes use concatenated lowercase names that do not follow
//! the regular camelCase/kebab-case conversion: multi-word ARIA attributes
//! (`aria-describedby` / `ariaDescribedBy`) and a set of HTML global or
//! element attributes (`readonly` / `readOnly`, `tabindex` / `tabIndex`).
//! Both lookup directions read the same table, so they cannot drift apart.
use vstd::prelude::*;
use crate::parser::tokens::{lemma_lex_irreflexive, lemma_lex_trans, lex_lt};
use crate::text::{char_is_uppercase, char_to_lowercase, char_to_uppercase, str_chars, chars_eq, push_all, is_uppercase, to_lowercase, to_uppercase, chars_to_string};

verus! {

/// Number of irregular `(property, attribute)` pairs in the table.
pub const IRREGULAR_COUNT: usize = 50;

/// The `i`-th irregular `(property, attribute)` pair.
pub open spec fn irregular_pair(i: int) -> (Seq<char>, Seq<char>) {
    if i == 0 {
        ("ariaActiveDescendant"@, "aria-activedescendant"@)
    } else
    if i == 1 {
        ("ariaAutoComplete"@, "aria-autocomplete"@)
    } else
    if i == 2 {
        ("ariaBrailleLabel"@, "aria-braillelabel"@)
    } else
    if i == 3 {
        ("ariaBrailleRoleDescription"@, "aria-brailleroledescription"@)
    } else
    if i == 4 {
        ("ariaColCount"@, "aria-colcount"@)
    } else
    if i == 5 {
        ("ariaColIndex"@, "aria-colindex"@)
    } else
    if i == 6 {
        ("ariaColIndexText"@, "aria-colindextext"@)
    } else
    if i == 7 {
        ("ariaColSpan"@, "aria-colspan"@)
    } else
    if i == 8 {
        ("ariaDescribedBy"@, "aria-describedby"@)
    } else
    if i == 9 {
        ("ariaDropEffect"@, "aria-dropeffect"@)
    } else
    if i == 10 {
        ("ariaErrorMessage"@, "aria-errormessage"@)
    } else
    if i == 11 {
        ("ariaFlowTo"@, "aria-flowto"@)
    } else
    if i == 12 {
        ("ariaHasPopup"@, "aria-haspopup"@)
    } else
    if i == 13 {
        ("ariaKeyShortcuts"@, "aria-keyshortcuts"@)
    } else
    if i == 14 {
        ("ariaLabelledBy"@, "aria-labelledby"@)
    } else
    if i == 15 {
        ("ariaMultiLine"@, "aria-multiline"@)
    } else
    if i == 16 {
        ("ariaMultiSelectable"@, "aria-multiselectable"@)
    } else
    if i == 17 {
        ("ariaPosInSet"@, "aria-posinset"@)
    } else
    if i == 18 {
        ("ariaReadOnly"@, "aria-readonly"@)
    } else
    if i == 19 {
        ("ariaRoleDescription"@, "aria-roledescription"@)
    } else
    if i == 20 {
        ("ariaRowCount"@, "aria-rowcount"@)
    } else
    if i == 21 {
        ("ariaRowIndex"@, "aria-rowindex"@)
    } else
    if i == 22 {
        ("ariaRowIndexText"@, "aria-rowindextext"@)
    } else
    if i == 23 {
        ("ariaRowSpan"@, "aria-rowspan"@)
    } else
    if i == 24 {
        ("ariaSetSize"@, "aria-setsize"@)
    } else
    if i == 25 {
        ("ariaValueMax"@, "aria-valuemax"@)
    } else
    if i == 26 {
        ("ariaValueMin"@, "aria-valuemin"@)
    } else
    if i == 27 {
        ("ariaValueNow"@, "aria-valuenow"@)
    } else
    if i == 28 {
        ("ariaValueText"@, "aria-valuetext"@)
    } else
    if i == 29 {
        ("accessKey"@, "accesskey"@)
    } else
    if i == 30 {
        ("autoCapitalize"@, "autocapitalize"@)
    } else
    if i == 31 {
        ("contentEditable"@, "contenteditable"@)
    } else
    if i == 32 {
        ("crossOrigin"@, "crossorigin"@)
    } else
    if i == 33 {
        ("dirName"@, "dirname"@)
    } else
    if i == 34 {
        ("fetchPriority"@, "fetchpriority"@)
    } else
    if i == 35 {
        ("formAction"@, "formaction"@)
    } else
    if i == 36 {
        ("formEnctype"@, "formenctype"@)
    } else
    if i == 37 {
        ("formMethod"@, "formmethod"@)
    } else
    if i == 38 {
        ("formNoValidate"@, "formnovalidate"@)
    } else
    if i == 39 {
        ("formTarget"@, "formtarget"@)
    } else
    if i == 40 {
        ("inputMode"@, "inputmode"@)
    } else
    if i == 41 {
        ("isMap"@, "ismap"@)
    } else
    if i == 42 {
        ("maxLength"@, "maxlength"@)
    } else
    if i == 43 {
        ("minLength"@, "minlength"@)
    } else
    if i == 44 {
        ("noModule"@, "nomodule"@)
    } else
    if i == 45 {
        ("noValidate"@, "novalidate"@)
    } else
    if i == 46 {
        ("readOnly"@, "readonly"@)
    } else
    if i == 47 {
        ("referrerPolicy"@, "referrerpolicy"@)
    } else
    if i == 48 {
        ("tabIndex"@, "tabindex"@)
    } else
    if i == 49 {
        ("useMap"@, "usemap"@)
    } else {
        (Seq::empty(), Seq::empty())
    }
}

/// Executable access to the `i`-th irregular pair.
pub fn irregular_pair_at(i: usize) -> (r: (&'static str, &'static str))
    requires
        i < IRREGULAR_COUNT,
    ensures
        r.0@ == irregular_pair(i as int).0,
        r.1@ == irregular_pair(i as int).1,
{
    match i {
        0 => ("ariaActiveDescendant", "aria-activedescendant"),
        1 => ("ariaAutoComplete", "aria-autocomplete"),
        2 => ("ariaBrailleLabel", "aria-braillelabel"),
        3 => ("ariaBrailleRoleDescription", "aria-brailleroledescription"),
        4 => ("ariaColCount", "aria-colcount"),
        5 => ("ariaColIndex", "aria-colindex"),
        6 => ("ariaColIndexText", "aria-colindextext"),
        7 => ("ariaColSpan", "aria-colspan"),
        8 => ("ariaDescribedBy", "aria-describedby"),
        9 => ("ariaDropEffect", "aria-dropeffect"),
        10 => ("ariaErrorMessage", "aria-errormessage"),
        11 => ("ariaFlowTo", "aria-flowto"),
        12 => ("ariaHasPopup", "aria-haspopup"),
        13 => ("ariaKeyShortcuts", "aria-keyshortcuts"),
        14 => ("ariaLabelledBy", "aria-labelledby"),
        15 => ("ariaMultiLine", "aria-multiline"),
        16 => ("ariaMultiSelectable", "aria-multiselectable"),
        17 => ("ariaPosInSet", "aria-posinset"),
        18 => ("ariaReadOnly", "aria-readonly"),
        19 => ("ariaRoleDescription", "aria-roledescription"),
        20 => ("ariaRowCount", "aria-rowcount"),
        21 => ("ariaRowIndex", "aria-rowindex"),
        22 => ("ariaRowIndexText", "aria-rowindextext"),
        23 => ("ariaRowSpan", "aria-rowspan"),
        24 => ("ariaSetSize", "aria-setsize"),
        25 => ("ariaValueMax", "aria-valuemax"),
        26 => ("ariaValueMin", "aria-valuemin"),
        27 => ("ariaValueNow", "aria-valuenow"),
        28 => ("ariaValueText", "aria-valuetext"),
        29 => ("accessKey", "accesskey"),
        30 => ("autoCapitalize", "autocapitalize"),
        31 => ("contentEditable", "contenteditable"),
        32 => ("crossOrigin", "crossorigin"),
        33 => ("dirName", "dirname"),
        34 => ("fetchPriority", "fetchpriority"),
        35 => ("formAction", "formaction"),
        36 => ("formEnctype", "formenctype"),
        37 => ("formMethod", "formmethod"),
        38 => ("formNoValidate", "formnovalidate"),
        39 => ("formTarget", "formtarget"),
        40 => ("inputMode", "inputmode"),
        41 => ("isMap", "ismap"),
        42 => ("maxLength", "maxlength"),
        43 => ("minLength", "minlength"),
        44 => ("noModule", "nomodule"),
        45 => ("noValidate", "novalidate"),
        46 => ("readOnly", "readonly"),
        47 => ("referrerPolicy", "referrerpolicy"),
        48 => ("tabIndex", "tabindex"),
        49 => ("useMap", "usemap"),
        _ => ("", ""),
    }
}

/// First irregular pair at index `i` or later whose property is `name`.
pub open spec fn property_lookup_from(name: Seq<char>, i: int) -> Option<Seq<char>>
    decreases IRREGULAR_COUNT - i,
{
    if i < 0 || i >= IRREGULAR_COUNT {
        None
    } else if irregular_pair(i).0 == name {
        Some(irregular_pair(i).1)
    } else {
        property_lookup_from(name, i + 1)
    }
}

/// First irregular pair at index `i` or later whose attribute is `name`.
pub open spec fn attribute_lookup_from(name: Seq<char>, i: int) -> Option<Seq<char>>
    decreases IRREGULAR_COUNT - i,
{
    if i < 0 || i >= IRREGULAR_COUNT {
        None
    } else if irregular_pair(i).1 == name {
        Some(irregular_pair(i).0)
    } else {
        attribute_lookup_from(name, i + 1)
    }
}

/// The irregular attribute for a property name, if the table lists one.
pub open spec fn spec_property_to_attribute(name: Seq<char>) -> Option<Seq<char>> {
    property_lookup_from(name, 0)
}

/// The irregular property for an attribute name, if the table lists one.
pub open spec fn spec_attribute_to_property(name: Seq<char>) -> Option<Seq<char>> {
    attribute_lookup_from(name, 0)
}

/// Map a camelCase property name to its HTML attribute.
///
/// Returns `None` for names that follow the regular camelCase/kebab-case
/// conversion.
pub fn property_to_attribute(name: &str) -> (r: Option<&'static str>)
    ensures
        r matches Some(a) ==> spec_property_to_attribute(name@) == Some(a@),
        r is None ==> spec_property_to_attribute(name@) is None,
{
    let n = str_chars(name);
    let mut i: usize = 0;
    while i < IRREGULAR_COUNT
        invariant
            0 <= i <= IRREGULAR_COUNT,
            n@ == name@,
            property_lookup_from(name@, 0) == property_lookup_from(name@, i as int),
        decreases IRREGULAR_COUNT - i,
    {
        let (p, a) = irregular_pair_at(i);
        let pc = str_chars(p);
        if chars_eq(pc.as_slice(), n.as_slice()) {
            return Some(a);
        }
        i = i + 1;
    }
    None
}

/// Map an HTML attribute to its camelCase property name.
///
/// Inverse of [`property_to_attribute`].
pub fn attribute_to_property(name: &str) -> (r: Option<&'static str>)
    ensures
        r matches Some(p) ==> spec_attribute_to_property(name@) == Some(p@),
        r is None ==> spec_attribute_to_property(name@) is None,
{
    let n = str_chars(name);
    let mut i: usize = 0;
    while i < IRREGULAR_COUNT
        invariant
            0 <= i <= IRREGULAR_COUNT,
            n@ == name@,
            attribute_lookup_from(name@, 0) == attribute_lookup_from(name@, i as int),
        decreases IRREGULAR_COUNT - i,
    {
        let (p, a) = irregular_pair_at(i);
        let ac = str_chars(a);
        if chars_eq(ac.as_slice(), n.as_slice()) {
            return Some(p);
        }
        i = i + 1;
    }
    None
}

/// Output of the regular camelCase to kebab-case conversion for one
/// character that is not the first: an uppercase character becomes `-`
/// followed by its lowercase mapping.
pub open spec fn kebab_step(c: char) -> Seq<char> {
    if char_is_uppercase(c) {
        seq!['-'] + char_to_lowercase(c)
    } else {
        seq![c]
    }
}

/// Regular camelCase to kebab-case conversion: the first character is kept
/// as it is, every later character goes through [`kebab_step`].
pub open spec fn kebab_generic(s: Seq<char>) -> Seq<char>
    decreases s.len(),
{
    if s.len() == 0 {
        Seq::empty()
    } else if s.len() == 1 {
        seq![s[0]]
    } else {
        kebab_generic(s.drop_last()) + kebab_step(s.last())
    }
}

/// The attribute name for a property name: the irregular table first,
/// the regular conversion otherwise.
pub open spec fn spec_camel_to_kebab(name: Seq<char>) -> Seq<char> {
    match spec_property_to_attribute(name) {
        Some(a) => a,
        None => kebab_generic(name),
    }
}

/// Regular kebab-case to camelCase conversion, with the pending
/// "capitalize the next character" flag: `-` is dropped and sets the flag,
/// the next character is replaced by its uppercase mapping.
pub open spec fn camel_state(s: Seq<char>) -> (Seq<char>, bool)
    decreases s.len(),
{
    if s.len() == 0 {
        (Seq::empty(), false)
    } else {
        let (out, cap) = camel_state(s.drop_last());
        let c = s.last();
        if c == '-' {
            (out, true)
        } else if cap {
            (out + char_to_uppercase(c), false)
        } else {
            (out.push(c), false)
        }
    }
}

/// The property name for an attribute name: the irregular table first,
/// the regular conversion otherwise.
pub open spec fn spec_attribute_to_camel(name: Seq<char>) -> Seq<char> {
    match spec_attribute_to_property(name) {
        Some(p) => p,
        None => camel_state(name).0,
    }
}

/// Convert a camelCase property name to its HTML attribute name.
///
/// Checks the irregular attribute table first, then falls back to the
/// regular conversion (inserting `-` before each uppercase letter that is
/// not the first character, and lowercasing it).
pub fn camel_to_kebab(name: &str) -> (r: String)
    ensures
        r@ == spec_camel_to_kebab(name@),
{
    if let Some(attr) = property_to_attribute(name) {
        return String::from_str(attr);
    }
    let n = str_chars(name);
    let mut out: Vec<char> = Vec::new();
    let mut i: usize = 0;
    while i < n.len()
        invariant
            0 <= i <= n@.len(),
            out@ == kebab_generic(n@.take(i as int)),
        decreases n@.len() - i,
    {
        let ch = n[i];
        assert(n@.take(i + 1).drop_last() =~= n@.take(i as int));
        if is_uppercase(ch) && out.len() > 0 {
            out.push('-');
            let lower = to_lowercase(ch);
            push_all(&mut out, lower.as_slice());
        } else {
            proof {
                if i > 0 {
                    lemma_kebab_generic_nonempty(n@.take(i as int));
                }
            }
            out.push(ch);
        }
        proof {
            if i == 0 {
                assert(n@.take(1) =~= seq![ch]);
            } else {
                lemma_kebab_generic_nonempty(n@.take(i as int));
            }
        }
        i = i + 1;
    }
    assert(n@.take(n@.len() as int) =~= n@);
    chars_to_string(out.as_slice())
}

/// The regular conversion of a non-empty name is non-empty.
proof fn lemma_kebab_generic_nonempty(s: Seq<char>)
    requires
        s.len() > 0,
    ensures
        kebab_generic(s).len() > 0,
    decreases s.len(),
{
    if s.len() > 1 {
        lemma_kebab_generic_nonempty(s.drop_last());
    }
}

/// Convert an HTML attribute name to its camelCase property name.
///
/// Checks the irregular attribute table first, then falls back to the
/// regular conversion (removing `-` and replacing the following character
/// by its uppercase mapping).
pub fn attribute_to_camel(name: &str) -> (r: String)
    ensures
        r@ == spec_attribute_to_camel(name@),
{
    if let Some(prop) = attribute_to_property(name) {
        return String::from_str(prop);
    }
    let n = str_chars(name);
    let mut out: Vec<char> = Vec::new();
    let mut capitalize_next = false;
    let mut i: usize = 0;
    while i < n.len()
        invariant
            0 <= i <= n@.len(),
            (out@, capitalize_next) == camel_state(n@.take(i as int)),
        decreases n@.len() - i,
    {
        let ch = n[i];
        assert(n@.take(i + 1).drop_last() =~= n@.take(i as int));
        if ch == '-' {
            capitalize_next = true;
        } else if capitalize_next {
            let upper = to_uppercase(ch);
            push_all(&mut out, upper.as_slice());
            capitalize_next = false;
        } else {
            out.push(ch);
        }
        i = i + 1;
    }
    assert(n@.take(n@.len() as int) =~= n@);
    chars_to_string(out.as_slice())
}

} // verus!


verus! {

/// A name begins with `ar`, as the ARIA names of the table do.
pub open spec fn aria_like(s: Seq<char>) -> bool {
    s.len() >= 2 && s[0] == 'a' && s[1] == 'r'
}

/// The table holds the ARIA pairs first (both names begin with `ar`) and
/// then the other pairs (neither begins with `ar`), each group in
/// increasing order of property and of attribute.
proof fn lemma_table_order(i: int)
    requires
        0 <= i < IRREGULAR_COUNT,
    ensures
        aria_like(irregular_pair(i).0) == (i < 29),
        aria_like(irregular_pair(i).1) == (i < 29),
        i + 1 < IRREGULAR_COUNT && i != 28 ==> lex_lt(irregular_pair(i).0, irregular_pair(i + 1).0)
            && lex_lt(irregular_pair(i).1, irregular_pair(i + 1).1),
{
    reveal_with_fuel(lex_lt, 15);
    if i == 0 {
        reveal_strlit("ariaActiveDescendant");
        reveal_strlit("aria-activedescendant");
        reveal_strlit("ariaAutoComplete");
        reveal_strlit("aria-autocomplete");
    } else if i == 1 {
        reveal_strlit("ariaAutoComplete");
        reveal_strlit("aria-autocomplete");
        reveal_strlit("ariaBrailleLabel");
        reveal_strlit("aria-braillelabel");
    } else if i == 2 {
        reveal_strlit("ariaBrailleLabel");
        reveal_strlit("aria-braillelabel");
        reveal_strlit("ariaBrailleRoleDescription");
        reveal_strlit("aria-brailleroledescription");
    } else if i == 3 {
        reveal_strlit("ariaBrailleRoleDescription");
        reveal_strlit("aria-brailleroledescription");
        reveal_strlit("ariaColCount");
        reveal_strlit("aria-colcount");
    } else if i == 4 {
        reveal_strlit("ariaColCount");
        reveal_strlit("aria-colcount");
        reveal_strlit("ariaColIndex");
        reveal_strlit("aria-colindex");
    } else if i == 5 {
        reveal_strlit("ariaColIndex");
        reveal_strlit("aria-colindex");
        reveal_strlit("ariaColIndexText");
        reveal_strlit("aria-colindextext");
    } else if i == 6 {
        reveal_strlit("ariaColIndexText");
        reveal_strlit("aria-colindextext");
        reveal_strlit("ariaColSpan");
        reveal_strlit("aria-colspan");
    } else if i == 7 {
        reveal_strlit("ariaColSpan");
        reveal_strlit("aria-colspan");
        reveal_strlit("ariaDescribedBy");
        reveal_strlit("aria-describedby");
    } else if i == 8 {
        reveal_strlit("ariaDescribedBy");
        reveal_strlit("aria-describedby");
        reveal_strlit("ariaDropEffect");
        reveal_strlit("aria-dropeffect");
    } else if i == 9 {
        reveal_strlit("ariaDropEffect");
        reveal_strlit("aria-dropeffect");
        reveal_strlit("ariaErrorMessage");
        reveal_strlit("aria-errormessage");
    } else if i == 10 {
        reveal_strlit("ariaErrorMessage");
        reveal_strlit("aria-errormessage");
        reveal_strlit("ariaFlowTo");
        reveal_strlit("aria-flowto");
    } else if i == 11 {
        reveal_strlit("ariaFlowTo");
        reveal_strlit("aria-flowto");
        reveal_strlit("ariaHasPopup");
        reveal_strlit("aria-haspopup");
    } else if i == 12 {
        reveal_strlit("ariaHasPopup");
        reveal_strlit("aria-haspopup");
        reveal_strlit("ariaKeyShortcuts");
        reveal_strlit("aria-keyshortcuts");
    } else if i == 13 {
        reveal_strlit("ariaKeyShortcuts");
        reveal_strlit("aria-keyshortcuts");
        reveal_strlit("ariaLabelledBy");
        reveal_strlit("aria-labelledby");
    } else if i == 14 {
        reveal_strlit("ariaLabelledBy");
        reveal_strlit("aria-labelledby");
        reveal_strlit("ariaMultiLine");
        reveal_strlit("aria-multiline");
    } else if i == 15 {
        reveal_strlit("ariaMultiLine");
        reveal_strlit("aria-multiline");
        reveal_strlit("ariaMultiSelectable");
        reveal_strlit("aria-multiselectable");
    } else if i == 16 {
        reveal_strlit("ariaMultiSelectable");
        reveal_strlit("aria-multiselectable");
        reveal_strlit("ariaPosInSet");
        reveal_strlit("aria-posinset");
    } else if i == 17 {
        reveal_strlit("ariaPosInSet");
        reveal_strlit("aria-posinset");
        reveal_strlit("ariaReadOnly");
        reveal_strlit("aria-readonly");
    } else if i == 18 {
        reveal_strlit("ariaReadOnly");
        reveal_strlit("aria-readonly");
        reveal_strlit("ariaRoleDescription");
        reveal_strlit("aria-roledescription");
    } else if i == 19 {
        reveal_strlit("ariaRoleDescription");
        reveal_strlit("aria-roledescription");
        reveal_strlit("ariaRowCount");
        reveal_strlit("aria-rowcount");
    } else if i == 20 {
        reveal_strlit("ariaRowCount");
        reveal_strlit("aria-rowcount");
        reveal_strlit("ariaRowIndex");
        reveal_strlit("aria-rowindex");
    } else if i == 21 {
        reveal_strlit("ariaRowIndex");
        reveal_strlit("aria-rowindex");
        reveal_strlit("ariaRowIndexText");
        reveal_strlit("aria-rowindextext");
    } else if i == 22 {
        reveal_strlit("ariaRowIndexText");
        reveal_strlit("aria-rowindextext");
        reveal_strlit("ariaRowSpan");
        reveal_strlit("aria-rowspan");
    } else if i == 23 {
        reveal_strlit("ariaRowSpan");
        reveal_strlit("aria-rowspan");
        reveal_strlit("ariaSetSize");
        reveal_strlit("aria-setsize");
    } else if i == 24 {
        reveal_strlit("ariaSetSize");
        reveal_strlit("aria-setsize");
        reveal_strlit("ariaValueMax");
        reveal_strlit("aria-valuemax");
    } else if i == 25 {
        reveal_strlit("ariaValueMax");
        reveal_strlit("aria-valuemax");
        reveal_strlit("ariaValueMin");
        reveal_strlit("aria-valuemin");
    } else if i == 26 {
        reveal_strlit("ariaValueMin");
        reveal_strlit("aria-valuemin");
        reveal_strlit("ariaValueNow");
        reveal_strlit("aria-valuenow");
    } else if i == 27 {
        reveal_strlit("ariaValueNow");
        reveal_strlit("aria-valuenow");
        reveal_strlit("ariaValueText");
        reveal_strlit("aria-valuetext");
    } else if i == 28 {
        reveal_strlit("ariaValueText");
        reveal_strlit("aria-valuetext");
        reveal_strlit("accessKey");
        reveal_strlit("accesskey");
    } else if i == 29 {
        reveal_strlit("accessKey");
        reveal_strlit("accesskey");
        reveal_strlit("autoCapitalize");
        reveal_strlit("autocapitalize");
    } else if i == 30 {
        reveal_strlit("autoCapitalize");
        reveal_strlit("autocapitalize");
        reveal_strlit("contentEditable");
        reveal_strlit("contenteditable");
    } else if i == 31 {
        reveal_strlit("contentEditable");
        reveal_strlit("contenteditable");
        reveal_strlit("crossOrigin");
        reveal_strlit("crossorigin");
    } else if i == 32 {
        reveal_strlit("crossOrigin");
        reveal_strlit("crossorigin");
        reveal_strlit("dirName");
        reveal_strlit("dirname");
    } else if i == 33 {
        reveal_strlit("dirName");
        reveal_strlit("dirname");
        reveal_strlit("fetchPriority");
        reveal_strlit("fetchpriority");
    } else if i == 34 {
        reveal_strlit("fetchPriority");
        reveal_strlit("fetchpriority");
        reveal_strlit("formAction");
        reveal_strlit("formaction");
    } else if i == 35 {
        reveal_strlit("formAction");
        reveal_strlit("formaction");
        reveal_strlit("formEnctype");
        reveal_strlit("formenctype");
    } else if i == 36 {
        reveal_strlit("formEnctype");
        reveal_strlit("formenctype");
        reveal_strlit("formMethod");
        reveal_strlit("formmethod");
    } else if i == 37 {
        reveal_strlit("formMethod");
        reveal_strlit("formmethod");
        reveal_strlit("formNoValidate");
        reveal_strlit("formnovalidate");
    } else if i == 38 {
        reveal_strlit("formNoValidate");
        reveal_strlit("formnovalidate");
        reveal_strlit("formTarget");
        reveal_strlit("formtarget");
    } else if i == 39 {
        reveal_strlit("formTarget");
        reveal_strlit("formtarget");
        reveal_strlit("inputMode");
        reveal_strlit("inputmode");
    } else if i == 40 {
        reveal_strlit("inputMode");
        reveal_strlit("inputmode");
        reveal_strlit("isMap");
        reveal_strlit("ismap");
    } else if i == 41 {
        reveal_strlit("isMap");
        reveal_strlit("ismap");
        reveal_strlit("maxLength");
        reveal_strlit("maxlength");
    } else if i == 42 {
        reveal_strlit("maxLength");
        reveal_strlit("maxlength");
        reveal_strlit("minLength");
        reveal_strlit("minlength");
    } else if i == 43 {
        reveal_strlit("minLength");
        reveal_strlit("minlength");
        reveal_strlit("noModule");
        reveal_strlit("nomodule");
    } else if i == 44 {
        reveal_strlit("noModule");
        reveal_strlit("nomodule");
        reveal_strlit("noValidate");
        reveal_strlit("novalidate");
    } else if i == 45 {
        reveal_strlit("noValidate");
        reveal_strlit("novalidate");
        reveal_strlit("readOnly");
        reveal_strlit("readonly");
    } else if i == 46 {
        reveal_strlit("readOnly");
        reveal_strlit("readonly");
        reveal_strlit("referrerPolicy");
        reveal_strlit("referrerpolicy");
    } else if i == 47 {
        reveal_strlit("referrerPolicy");
        reveal_strlit("referrerpolicy");
        reveal_strlit("tabIndex");
        reveal_strlit("tabindex");
    } else if i == 48 {
        reveal_strlit("tabIndex");
        reveal_strlit("tabindex");
        reveal_strlit("useMap");
        reveal_strlit("usemap");
    } else if i == 49 {
        reveal_strlit("useMap");
        reveal_strlit("usemap");
    }
}

/// Within a group, a pair's names come before a later pair's names.
proof fn lemma_table_sorted(i: int, j: int)
    requires
        0 <= i < j < IRREGULAR_COUNT,
        (i < 29) == (j < 29),
    ensures
        lex_lt(irregular_pair(i).0, irregular_pair(j).0),
        lex_lt(irregular_pair(i).1, irregular_pair(j).1),
    decreases j - i,
{
    lemma_table_order(i);
    if j > i + 1 {
        lemma_table_sorted(i + 1, j);
        lemma_lex_trans(irregular_pair(i).0, irregular_pair(i + 1).0, irregular_pair(j).0);
        lemma_lex_trans(irregular_pair(i).1, irregular_pair(i + 1).1, irregular_pair(j).1);
    }
}

/// Different pairs have different properties and different attributes.
proof fn lemma_table_distinct(i: int, j: int)
    requires
        0 <= i < j < IRREGULAR_COUNT,
    ensures
        irregular_pair(i).0 != irregular_pair(j).0,
        irregular_pair(i).1 != irregular_pair(j).1,
{
    if (i < 29) == (j < 29) {
        lemma_table_sorted(i, j);
        lemma_lex_irreflexive(irregular_pair(j).0);
        lemma_lex_irreflexive(irregular_pair(j).1);
    } else {
        lemma_table_order(i);
        lemma_table_order(j);
    }
}

proof fn lemma_property_lookup_skip(name: Seq<char>, j: int, i: int)
    requires
        0 <= j <= i < IRREGULAR_COUNT,
        forall|k: int| j <= k < i ==> irregular_pair(k).0 != name,
    ensures
        property_lookup_from(name, j) == property_lookup_from(name, i),
    decreases i - j,
{
    if j < i {
        lemma_property_lookup_skip(name, j + 1, i);
    }
}

proof fn lemma_attribute_lookup_skip(name: Seq<char>, j: int, i: int)
    requires
        0 <= j <= i < IRREGULAR_COUNT,
        forall|k: int| j <= k < i ==> irregular_pair(k).1 != name,
    ensures
        attribute_lookup_from(name, j) == attribute_lookup_from(name, i),
    decreases i - j,
{
    if j < i {
        lemma_attribute_lookup_skip(name, j + 1, i);
    }
}

/// Every pair of the table is found in both directions: the property maps
/// to its attribute and the attribute back to its property.
pub proof fn lemma_irregular_pair_found(i: int)
    requires
        0 <= i < IRREGULAR_COUNT,
    ensures
        spec_property_to_attribute(irregular_pair(i).0) == Some(irregular_pair(i).1),
        spec_attribute_to_property(irregular_pair(i).1) == Some(irregular_pair(i).0),
{
    assert forall|k: int| 0 <= k < i implies irregular_pair(k).0 != irregular_pair(i).0
        && irregular_pair(k).1 != irregular_pair(i).1 by {
        lemma_table_distinct(k, i);
    }
    lemma_property_lookup_skip(irregular_pair(i).0, 0, i);
    lemma_attribute_lookup_skip(irregular_pair(i).1, 0, i);
}

proof fn lemma_property_lookup_found(name: Seq<char>, j: int)
    requires
        0 <= j <= IRREGULAR_COUNT,
        property_lookup_from(name, j) is Some,
    ensures
        exists|i: int| j <= i < IRREGULAR_COUNT && irregular_pair(i).0 == name
            && property_lookup_from(name, j) == Some(irregular_pair(i).1),
    decreases IRREGULAR_COUNT - j,
{
    if irregular_pair(j).0 != name {
        lemma_property_lookup_found(name, j + 1);
    }
}

proof fn lemma_attribute_lookup_found(name: Seq<char>, j: int)
    requires
        0 <= j <= IRREGULAR_COUNT,
        attribute_lookup_from(name, j) is Some,
    ensures
        exists|i: int| j <= i < IRREGULAR_COUNT && irregular_pair(i).1 == name
            && attribute_lookup_from(name, j) == Some(irregular_pair(i).0),
    decreases IRREGULAR_COUNT - j,
{
    if irregular_pair(j).1 != name {
        lemma_attribute_lookup_found(name, j + 1);
    }
}

/// The two lookups are inverse: a property with an irregular attribute is
/// what that attribute maps back to, and the other way round.
pub proof fn lemma_irregular_lookups_inverse(name: Seq<char>)
    ensures
        spec_property_to_attribute(name) matches Some(a) ==> spec_attribute_to_property(a) == Some(name),
        spec_attribute_to_property(name) matches Some(p) ==> spec_property_to_attribute(p) == Some(name),
{
    if spec_property_to_attribute(name) is Some {
        lemma_property_lookup_found(name, 0);
        let i = choose|i: int| 0 <= i < IRREGULAR_COUNT && irregular_pair(i).0 == name
            && property_lookup_from(name, 0) == Some(irregular_pair(i).1);
        lemma_irregular_pair_found(i);
    }
    if spec_attribute_to_property(name) is Some {
        lemma_attribute_lookup_found(name, 0);
        let i = choose|i: int| 0 <= i < IRREGULAR_COUNT && irregular_pair(i).1 == name
            && attribute_lookup_from(name, 0) == Some(irregular_pair(i).0);
        lemma_irregular_pair_found(i);
    }
}


/// Every pair of the irregular table survives a round trip: its property
/// comes back from `attribute_to_camel(camel_to_kebab(..))` and its
/// attribute from `camel_to_kebab(attribute_to_camel(..))`.
pub proof fn lemma_irregular_round_trip(i: int)
    requires
        0 <= i < IRREGULAR_COUNT,
    ensures
        spec_attribute_to_camel(spec_camel_to_kebab(irregular_pair(i).0)) == irregular_pair(i).0,
        spec_camel_to_kebab(spec_attribute_to_camel(irregular_pair(i).1)) == irregular_pair(i).1,
{
    lemma_irregular_pair_found(i);
}

/// A name to which the regular conversions apply cleanly: it holds no `-`,
/// and every uppercase character after the first lowercases to a single
/// character, other than `-`, that uppercases back to it.
pub open spec fn regular_name(p: Seq<char>) -> bool {
    forall|i: int|
        0 <= i < p.len() ==> #[trigger] p[i] != '-' && (0 < i && char_is_uppercase(p[i]) ==> {
            let l = char_to_lowercase(p[i]);
            &&& l.len() == 1
            &&& l[0] != '-'
            &&& char_to_uppercase(l[0]) == seq![p[i]]
        })
}

/// The regular kebab-case conversion of a regular name converts back to it.
proof fn lemma_kebab_then_camel(q: Seq<char>)
    requires
        regular_name(q),
    ensures
        camel_state(kebab_generic(q)) == (q, false),
    decreases q.len(),
{
    if q.len() == 0 {
        assert(kebab_generic(q) =~= Seq::<char>::empty());
        assert(q =~= Seq::<char>::empty());
    } else if q.len() == 1 {
        let c = q[0];
        assert(q[0] != '-');
        assert(seq![c].drop_last() =~= Seq::<char>::empty());
        assert(Seq::<char>::empty().push(c) =~= q);
        assert(kebab_generic(q) == seq![c]);
        assert(camel_state(Seq::<char>::empty()) == (Seq::<char>::empty(), false));
        assert(seq![c].last() == c);
        assert(camel_state(seq![c]) == (q, false));
    } else {
        let r = q.drop_last();
        assert forall|i: int| 0 <= i < r.len() implies #[trigger] r[i] != '-' && (0 < i
            && char_is_uppercase(r[i]) ==> {
            let l = char_to_lowercase(r[i]);
            &&& l.len() == 1
            &&& l[0] != '-'
            &&& char_to_uppercase(l[0]) == seq![r[i]]
        }) by {
            assert(r[i] == q[i]);
        }
        lemma_kebab_then_camel(r);
        let c = q.last();
        assert(q[q.len() - 1] != '-');
        let k = kebab_generic(r);
        assert(r.push(c) =~= q);
        if char_is_uppercase(c) {
            let l = char_to_lowercase(c)[0];
            assert(char_to_lowercase(c) =~= seq![l]);
            assert(kebab_generic(q) =~= k.push('-').push(l));
            assert(k.push('-').push(l).drop_last() =~= k.push('-'));
            assert(k.push('-').drop_last() =~= k);
            assert(camel_state(k.push('-')) == (r, true));
            assert(l != '-');
            assert(char_to_uppercase(l) == seq![c]);
            assert(camel_state(k.push('-').push(l)) == (r + seq![c], false));
            assert(r + seq![c] =~= q);
        } else {
            assert(kebab_generic(q) =~= k.push(c));
            assert(k.push(c).drop_last() =~= k);
            assert(camel_state(k.push(c)) == (r.push(c), false));
        }
    }
}

/// The regular conversions undo each other: a regular name that has no
/// irregular attribute, and whose regular attribute has no irregular
/// property, comes back unchanged from `attribute_to_camel(camel_to_kebab(..))`.
pub proof fn lemma_regular_round_trip(p: Seq<char>)
    requires
        regular_name(p),
        spec_property_to_attribute(p) is None,
        spec_attribute_to_property(kebab_generic(p)) is None,
    ensures
        spec_camel_to_kebab(p) == kebab_generic(p),
        spec_attribute_to_camel(spec_camel_to_kebab(p)) == p,
{
    lemma_kebab_then_camel(p);
}

} // verus!
