use nami_core::framework::Framework;

#[test]
fn framework_names_follow_ecosystem_spelling() {
    assert_eq!(Framework::NextJs.name(), "next.js");
    assert_eq!(Framework::Alpine.name(), "alpine.js");
    assert_eq!(Framework::ShadcnRadix.name(), "shadcn/radix");
    assert_eq!(Framework::GoogleTagManager.name(), "gtm");
    assert_eq!(Framework::React.variant(), "React");
    assert_eq!(Framework::JqueryFallback.variant(), "JqueryFallback");
}
