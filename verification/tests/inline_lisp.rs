use nami_core::dom::{ElementData, Node, NodeData};
use nami_core::inline_lisp::{escape_sexp_string, is_macro_element};

fn el(tag: &str, attrs: &[(&str, &str)]) -> Node {
    Node {
        data: NodeData::Element(ElementData {
            tag: tag.to_string(),
            attributes: attrs.iter().map(|(k, v)| (k.to_string(), v.to_string())).collect(),
        }),
        children: Vec::new(),
    }
}

#[test]
fn macro_elements_are_l_eval_and_lisp_scripts() {
    assert!(is_macro_element(&el("l-eval", &[])));
    assert!(is_macro_element(&el("L-EVAL", &[])));
    assert!(is_macro_element(&el("script", &[("type", "application/tatara-lisp")])));
    assert!(is_macro_element(&el("SCRIPT", &[("type", "  Text/Lisp \n")])));
    assert!(is_macro_element(&el("script", &[("type", "text/tatara-lisp")])));
    assert!(is_macro_element(&el("script", &[("type", "application/lisp")])));
    assert!(!is_macro_element(&el("script", &[("type", "text/javascript")])));
    assert!(!is_macro_element(&el("script", &[])));
    assert!(!is_macro_element(&el("div", &[("type", "text/lisp")])));
    let text = Node { data: NodeData::Text("l-eval".to_string()), children: Vec::new() };
    assert!(!is_macro_element(&text));
}

#[test]
fn sexp_strings_escape_quotes_and_backslashes() {
    assert_eq!(escape_sexp_string("plain"), "\"plain\"");
    assert_eq!(escape_sexp_string("a\"b\\c"), "\"a\\\"b\\\\c\"");
    assert_eq!(escape_sexp_string("line\nbreak"), "\"line\nbreak\"");
    assert_eq!(escape_sexp_string(""), "\"\"");
}
