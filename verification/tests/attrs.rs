use webui::attrs::{
    attribute_to_camel, attribute_to_property, camel_to_kebab, irregular_pair_at, property_to_attribute,
    IRREGULAR_COUNT,
};

fn all_mappings() -> Vec<(&'static str, &'static str)> {
    (0..IRREGULAR_COUNT).map(irregular_pair_at).collect()
}

#[test]
fn exhaustive_property_to_attribute() {
    for (prop, attr) in all_mappings() {
        assert_eq!(property_to_attribute(prop), Some(attr), "property_to_attribute({prop}) should be {attr}");
    }
}

#[test]
fn exhaustive_attribute_to_property() {
    for (prop, attr) in all_mappings() {
        assert_eq!(attribute_to_property(attr), Some(prop), "attribute_to_property({attr}) should be {prop}");
    }
}

#[test]
fn exhaustive_roundtrip() {
    for (prop, _) in all_mappings() {
        let attr = camel_to_kebab(prop);
        let back = attribute_to_camel(&attr);
        assert_eq!(back, prop, "roundtrip failed for {prop}");
    }
}

#[test]
fn single_word_attrs_return_none() {
    assert_eq!(property_to_attribute("ariaLabel"), None);
    assert_eq!(property_to_attribute("ariaHidden"), None);
    assert_eq!(attribute_to_property("aria-label"), None);
    assert_eq!(attribute_to_property("aria-hidden"), None);
}

#[test]
fn non_mapped_returns_none() {
    assert_eq!(property_to_attribute("myProp"), None);
    assert_eq!(attribute_to_property("my-prop"), None);
}

#[test]
fn camel_to_kebab_regular() {
    assert_eq!(camel_to_kebab("ariaLabel"), "aria-label");
    assert_eq!(camel_to_kebab("totalContacts"), "total-contacts");
    assert_eq!(camel_to_kebab("dataTitle"), "data-title");
}

#[test]
fn attribute_to_camel_regular() {
    assert_eq!(attribute_to_camel("aria-label"), "ariaLabel");
    assert_eq!(attribute_to_camel("data-title"), "dataTitle");
}

#[test]
fn camel_to_kebab_doc_examples() {
    assert_eq!(camel_to_kebab("ariaDescribedBy"), "aria-describedby");
    assert_eq!(camel_to_kebab("readOnly"), "readonly");
    assert_eq!(camel_to_kebab("totalContacts"), "total-contacts");
}

#[test]
fn attribute_to_camel_doc_examples() {
    assert_eq!(attribute_to_camel("aria-describedby"), "ariaDescribedBy");
    assert_eq!(attribute_to_camel("readonly"), "readOnly");
    assert_eq!(attribute_to_camel("data-title"), "dataTitle");
}

#[test]
fn camel_to_kebab_keeps_leading_uppercase_and_lowercases_later_ones() {
    // The first character is never prefixed with `-`.
    assert_eq!(camel_to_kebab("XmlHTTP"), "Xml-h-t-t-p");
    assert_eq!(camel_to_kebab(""), "");
    // Non-ASCII uppercase letters follow the Unicode lowercase mapping.
    assert_eq!(camel_to_kebab("caféÉclair"), "café-éclair");
}

#[test]
fn attribute_to_camel_edge_cases() {
    assert_eq!(attribute_to_camel("a--b"), "aB");
    assert_eq!(attribute_to_camel("trailing-"), "trailing");
    assert_eq!(attribute_to_camel("-lead"), "Lead");
    assert_eq!(attribute_to_camel("straße-ß"), "straßeSS");
}

#[test]
fn regular_names_round_trip() {
    for prop in ["totalContacts", "dataTitle", "ariaLabel", "x", "", "XmlHttp", "caféÉclair"] {
        assert_eq!(attribute_to_camel(&camel_to_kebab(prop)), prop);
    }
}

#[test]
fn irregular_attributes_round_trip() {
    for (_, attr) in all_mappings() {
        assert_eq!(camel_to_kebab(&attribute_to_camel(attr)), attr);
    }
}

#[test]
fn lowercase_spelling_of_an_irregular_attribute_does_not_round_trip() {
    // `readonly` has no irregular attribute, but its regular attribute is
    // the irregular attribute of `readOnly`.
    assert_eq!(camel_to_kebab("readonly"), "readonly");
    assert_eq!(attribute_to_camel("readonly"), "readOnly");
}
