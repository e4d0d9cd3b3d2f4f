//! Optional custom WGSL sources for the scene and UI passes, overriding the built-in ones.

use vstd::prelude::*;

verus! {

/// Optional custom shader WGSL. When `Some`, a source overrides the built-in one.
pub struct ShaderConfig {
    /// Custom scene pass WGSL (vertex + fragment).
    pub scene_wgsl: Option<String>,
    /// Custom UI pass WGSL (vertex + fragment).
    pub ui_wgsl: Option<String>,
}

impl Default for ShaderConfig {
    fn default() -> (c: Self)
        ensures
            c.scene_wgsl is None,
            c.ui_wgsl is None,
    {
        ShaderConfig { scene_wgsl: None, ui_wgsl: None }
    }
}

/// The text of an optional override, or `default` when there is none.
pub open spec fn chosen_source(custom: Option<String>, default: Seq<char>) -> Seq<char> {
    match custom {
        Some(s) => s@,
        None => default,
    }
}

impl ShaderConfig {
    /// An empty configuration: the built-in sources are used.
    pub fn new() -> (c: Self)
        ensures
            c.scene_wgsl is None,
            c.ui_wgsl is None,
    {
        ShaderConfig::default()
    }

    /// The scene WGSL to use: the custom source if set, else `default` (the built-in source).
    pub fn scene_wgsl<'a>(&'a self, default: &'a str) -> (s: &'a str)
        ensures
            s@ == chosen_source(self.scene_wgsl, default@),
    {
        match &self.scene_wgsl {
            Some(custom) => custom.as_str(),
            None => default,
        }
    }

    /// The UI WGSL to use: the custom source if set, else `default` (the built-in source).
    pub fn ui_wgsl<'a>(&'a self, default: &'a str) -> (s: &'a str)
        ensures
            s@ == chosen_source(self.ui_wgsl, default@),
    {
        match &self.ui_wgsl {
            Some(custom) => custom.as_str(),
            None => default,
        }
    }
}

} // verus!
