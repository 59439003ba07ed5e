//! Build-time options: CSS delivery, DOM structure and framework plugin.
use vstd::prelude::*;
use crate::text::{chars_eq, str_chars};

verus! {

/// How component CSS is delivered in rendered output.
#[derive(Debug, Clone, Copy, PartialEq, Eq, Structural)]
pub enum CssStrategy {
    /// `<link rel="stylesheet" href="/component.css">` tags (default).
    Link,
    /// CSS content embedded in `<style>` tags within the component.
    Style,
    /// A `<style type="module" specifier="component">` definition once per
    /// page, applied through adopted stylesheets.
    Module,
}

/// How component DOM is structured.
#[derive(Debug, Clone, Copy, PartialEq, Eq, Structural)]
pub enum DomStrategy {
    /// Shadow DOM with declarative shadow roots (default).
    Shadow,
    /// Light DOM: component content rendered as direct children.
    Light,
}

/// Framework plugin loaded for build-time and render-time processing.
#[derive(Debug, Clone, Copy, PartialEq, Eq, Structural)]
pub enum Plugin {
    /// FAST hydration plugin.
    Fast,
    /// WebUI plugin.
    WebUI,
}

impl Default for CssStrategy {
    fn default() -> (r: Self)
        ensures
            r == CssStrategy::Link,
    {
        CssStrategy::Link
    }
}

impl Default for DomStrategy {
    fn default() -> (r: Self)
        ensures
            r == DomStrategy::Shadow,
    {
        DomStrategy::Shadow
    }
}

/// Name of a CSS strategy.
pub open spec fn css_strategy_name(s: CssStrategy) -> Seq<char> {
    match s {
        CssStrategy::Link => "link"@,
        CssStrategy::Style => "style"@,
        CssStrategy::Module => "module"@,
    }
}

/// Name of a DOM strategy.
pub open spec fn dom_strategy_name(s: DomStrategy) -> Seq<char> {
    match s {
        DomStrategy::Shadow => "shadow"@,
        DomStrategy::Light => "light"@,
    }
}

/// Name of a plugin.
pub open spec fn plugin_name(p: Plugin) -> Seq<char> {
    match p {
        Plugin::Fast => "fast"@,
        Plugin::WebUI => "webui"@,
    }
}

fn eq_lit(s: &[char], lit: &str) -> (r: bool)
    ensures
        r == (s@ == lit@),
{
    let l = str_chars(lit);
    chars_eq(s, l.as_slice())
}

impl CssStrategy {
    /// The strategy's name: `link`, `style` or `module`.
    pub fn to_string(&self) -> (r: String)
        ensures
            r@ == css_strategy_name(*self),
    {
        match self {
            CssStrategy::Link => String::from_str("link"),
            CssStrategy::Style => String::from_str("style"),
            CssStrategy::Module => String::from_str("module"),
        }
    }

    /// The strategy with the given name, or the message listing the names.
    pub fn parse_name(s: &str) -> (r: Result<CssStrategy, String>)
        ensures
            match r {
                Ok(v) => css_strategy_name(v) == s@,
                Err(m) => s@ != "link"@ && s@ != "style"@ && s@ != "module"@
                    && m@ == "Unknown CSS strategy: "@ + s@ + ". Use \"link\", \"style\", or \"module\"."@,
            },
    {
        let c = str_chars(s);
        if eq_lit(c.as_slice(), "link") {
            Ok(CssStrategy::Link)
        } else if eq_lit(c.as_slice(), "style") {
            Ok(CssStrategy::Style)
        } else if eq_lit(c.as_slice(), "module") {
            Ok(CssStrategy::Module)
        } else {
            Err(String::from_str("Unknown CSS strategy: ").concat(s).concat(". Use \"link\", \"style\", or \"module\"."))
        }
    }
}

impl DomStrategy {
    /// The strategy's name: `shadow` or `light`.
    pub fn to_string(&self) -> (r: String)
        ensures
            r@ == dom_strategy_name(*self),
    {
        match self {
            DomStrategy::Shadow => String::from_str("shadow"),
            DomStrategy::Light => String::from_str("light"),
        }
    }

    /// The strategy with the given name, or the message listing the names.
    pub fn parse_name(s: &str) -> (r: Result<DomStrategy, String>)
        ensures
            match r {
                Ok(v) => dom_strategy_name(v) == s@,
                Err(m) => s@ != "shadow"@ && s@ != "light"@
                    && m@ == "Unknown DOM strategy: "@ + s@ + ". Use \"shadow\" or \"light\"."@,
            },
    {
        let c = str_chars(s);
        if eq_lit(c.as_slice(), "shadow") {
            Ok(DomStrategy::Shadow)
        } else if eq_lit(c.as_slice(), "light") {
            Ok(DomStrategy::Light)
        } else {
            Err(String::from_str("Unknown DOM strategy: ").concat(s).concat(". Use \"shadow\" or \"light\"."))
        }
    }
}

impl Plugin {
    /// The plugin's name: `fast` or `webui`.
    pub fn to_string(&self) -> (r: String)
        ensures
            r@ == plugin_name(*self),
    {
        match self {
            Plugin::Fast => String::from_str("fast"),
            Plugin::WebUI => String::from_str("webui"),
        }
    }

    /// The plugin with the given name, or an error message.
    pub fn parse_name(s: &str) -> (r: Result<Plugin, String>)
        ensures
            match r {
                Ok(v) => plugin_name(v) == s@,
                Err(m) => s@ != "fast"@ && s@ != "webui"@ && m@ == "Unknown plugin: "@ + s@,
            },
    {
        let c = str_chars(s);
        if eq_lit(c.as_slice(), "fast") {
            Ok(Plugin::Fast)
        } else if eq_lit(c.as_slice(), "webui") {
            Ok(Plugin::WebUI)
        } else {
            Err(String::from_str("Unknown plugin: ").concat(s))
        }
    }
}

impl std::str::FromStr for CssStrategy {
    type Err = String;

    /// See [`CssStrategy::parse_name`].
    fn from_str(s: &str) -> (r: Result<Self, Self::Err>)
        ensures
            match r {
                Ok(v) => css_strategy_name(v) == s@,
                Err(m) => s@ != "link"@ && s@ != "style"@ && s@ != "module"@
                    && m@ == "Unknown CSS strategy: "@ + s@ + ". Use \"link\", \"style\", or \"module\"."@,
            },
    {
        CssStrategy::parse_name(s)
    }
}

impl std::str::FromStr for DomStrategy {
    type Err = String;

    /// See [`DomStrategy::parse_name`].
    fn from_str(s: &str) -> (r: Result<Self, Self::Err>)
        ensures
            match r {
                Ok(v) => dom_strategy_name(v) == s@,
                Err(m) => s@ != "shadow"@ && s@ != "light"@
                    && m@ == "Unknown DOM strategy: "@ + s@ + ". Use \"shadow\" or \"light\"."@,
            },
    {
        DomStrategy::parse_name(s)
    }
}

impl std::str::FromStr for Plugin {
    type Err = String;

    /// See [`Plugin::parse_name`].
    fn from_str(s: &str) -> (r: Result<Self, Self::Err>)
        ensures
            match r {
                Ok(v) => plugin_name(v) == s@,
                Err(m) => s@ != "fast"@ && s@ != "webui"@ && m@ == "Unknown plugin: "@ + s@,
            },
    {
        Plugin::parse_name(s)
    }
}

/// A name parsed back gives the value it names.
pub proof fn lemma_names_round_trip(c: CssStrategy, d: DomStrategy, p: Plugin)
    ensures
        css_strategy_name(c) == "link"@ ==> c == CssStrategy::Link,
        css_strategy_name(c) == "style"@ ==> c == CssStrategy::Style,
        css_strategy_name(c) == "module"@ ==> c == CssStrategy::Module,
        dom_strategy_name(d) == "shadow"@ ==> d == DomStrategy::Shadow,
        dom_strategy_name(d) == "light"@ ==> d == DomStrategy::Light,
        plugin_name(p) == "fast"@ ==> p == Plugin::Fast,
        plugin_name(p) == "webui"@ ==> p == Plugin::WebUI,
{
    reveal_strlit("link");
    reveal_strlit("style");
    reveal_strlit("module");
    reveal_strlit("shadow");
    reveal_strlit("light");
    reveal_strlit("fast");
    reveal_strlit("webui");
    assert("link"@.len() == 4 && "style"@.len() == 5 && "module"@.len() == 6);
    assert("shadow"@.len() == 6 && "light"@.len() == 5);
    assert("fast"@.len() == 4 && "webui"@.len() == 5);
    match d {
        DomStrategy::Shadow => {},
        DomStrategy::Light => {},
    }
    match p {
        Plugin::Fast => {},
        Plugin::WebUI => {},
    }
    match c {
        CssStrategy::Link => {},
        CssStrategy::Style => {},
        CssStrategy::Module => {},
    }
}

} // verus!
