//! Front-end frameworks a page can be built with, and their names.
use vstd::prelude::*;

verus! {

/// A recognized framework or site platform.
#[derive(Debug, Clone, Copy, PartialEq, Eq, Hash, Structural)]
pub enum Framework {
    React,
    NextJs,
    Remix,
    Gatsby,
    Vue,
    Nuxt,
    Svelte,
    SvelteKit,
    Angular,
    Astro,
    Solid,
    Htmx,
    Alpine,
    Tailwind,
    ShadcnRadix,
    Bootstrap,
    Materialize,
    Wordpress,
    Shopify,
    GoogleTagManager,
    JqueryFallback,
}

impl Framework {
    /// The display name.
    pub open spec fn display_name(self) -> &'static str {
        match self {
            Framework::React => "react",
            Framework::NextJs => "next.js",
            Framework::Remix => "remix",
            Framework::Gatsby => "gatsby",
            Framework::Vue => "vue",
            Framework::Nuxt => "nuxt",
            Framework::Svelte => "svelte",
            Framework::SvelteKit => "sveltekit",
            Framework::Angular => "angular",
            Framework::Astro => "astro",
            Framework::Solid => "solid",
            Framework::Htmx => "htmx",
            Framework::Alpine => "alpine.js",
            Framework::Tailwind => "tailwind",
            Framework::ShadcnRadix => "shadcn/radix",
            Framework::Bootstrap => "bootstrap",
            Framework::Materialize => "materialize",
            Framework::Wordpress => "wordpress",
            Framework::Shopify => "shopify",
            Framework::GoogleTagManager => "gtm",
            Framework::JqueryFallback => "jquery",
        }
    }

    /// The variant's identifier, as `{:?}` prints it.
    pub open spec fn variant_name(self) -> &'static str {
        match self {
            Framework::React => "React",
            Framework::NextJs => "NextJs",
            Framework::Remix => "Remix",
            Framework::Gatsby => "Gatsby",
            Framework::Vue => "Vue",
            Framework::Nuxt => "Nuxt",
            Framework::Svelte => "Svelte",
            Framework::SvelteKit => "SvelteKit",
            Framework::Angular => "Angular",
            Framework::Astro => "Astro",
            Framework::Solid => "Solid",
            Framework::Htmx => "Htmx",
            Framework::Alpine => "Alpine",
            Framework::Tailwind => "Tailwind",
            Framework::ShadcnRadix => "ShadcnRadix",
            Framework::Bootstrap => "Bootstrap",
            Framework::Materialize => "Materialize",
            Framework::Wordpress => "Wordpress",
            Framework::Shopify => "Shopify",
            Framework::GoogleTagManager => "GoogleTagManager",
            Framework::JqueryFallback => "JqueryFallback",
        }
    }

    /// The display name: lower case, with the ecosystem's own spelling.
    pub fn name(&self) -> (r: &'static str)
        ensures
            r == self.display_name(),
    {
        match self {
            Framework::React => "react",
            Framework::NextJs => "next.js",
            Framework::Remix => "remix",
            Framework::Gatsby => "gatsby",
            Framework::Vue => "vue",
            Framework::Nuxt => "nuxt",
            Framework::Svelte => "svelte",
            Framework::SvelteKit => "sveltekit",
            Framework::Angular => "angular",
            Framework::Astro => "astro",
            Framework::Solid => "solid",
            Framework::Htmx => "htmx",
            Framework::Alpine => "alpine.js",
            Framework::Tailwind => "tailwind",
            Framework::ShadcnRadix => "shadcn/radix",
            Framework::Bootstrap => "bootstrap",
            Framework::Materialize => "materialize",
            Framework::Wordpress => "wordpress",
            Framework::Shopify => "shopify",
            Framework::GoogleTagManager => "gtm",
            Framework::JqueryFallback => "jquery",
        }
    }

    /// The variant's identifier.
    pub fn variant(&self) -> (r: &'static str)
        ensures
            r == self.variant_name(),
    {
        match self {
            Framework::React => "React",
            Framework::NextJs => "NextJs",
            Framework::Remix => "Remix",
            Framework::Gatsby => "Gatsby",
            Framework::Vue => "Vue",
            Framework::Nuxt => "Nuxt",
            Framework::Svelte => "Svelte",
            Framework::SvelteKit => "SvelteKit",
            Framework::Angular => "Angular",
            Framework::Astro => "Astro",
            Framework::Solid => "Solid",
            Framework::Htmx => "Htmx",
            Framework::Alpine => "Alpine",
            Framework::Tailwind => "Tailwind",
            Framework::ShadcnRadix => "ShadcnRadix",
            Framework::Bootstrap => "Bootstrap",
            Framework::Materialize => "Materialize",
            Framework::Wordpress => "Wordpress",
            Framework::Shopify => "Shopify",
            Framework::GoogleTagManager => "GoogleTagManager",
            Framework::JqueryFallback => "JqueryFallback",
        }
    }
}

} // verus!
