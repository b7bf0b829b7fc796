//! Saved presets and the matching of their endpoint references against live
//! nodes.

use vstd::prelude::*;
use vstd::string::StringExecFns;
use crate::text::opt_chars;

verus! {

/// A saved patchbay preset.
#[derive(Debug, Clone)]
pub struct Preset {
    pub name: String,
    pub version: u32,
    pub connections: Vec<PresetConnection>,
    /// Custom display names, as pairs of node key and name.
    pub node_renames: Vec<(String, String)>,
    pub pinned_connections: Vec<PresetConnection>,
}

/// A connection between two ports, stored by node and port names.
#[derive(Debug, Clone, PartialEq, Eq, Hash)]
pub struct PresetConnection {
    pub output_node: NodeMatcher,
    pub output_port: String,
    pub input_node: NodeMatcher,
    pub input_port: String,
    pub pinned: bool,
}

/// Identifies a node by its name, application and hardware path.
#[derive(Debug, Clone, PartialEq, Eq, Hash)]
pub struct NodeMatcher {
    pub name: String,
    pub app_name: Option<String>,
    pub object_path: Option<String>,
    /// Whether name and path are patterns rather than literal texts.
    pub use_regex: bool,
}

#[derive(Debug, Clone, Copy, PartialEq, Eq, Structural)]
pub enum PortTypeFilter {
    All,
    Audio,
    Midi,
    Video,
}

impl Default for PortTypeFilter {
    fn default() -> (r: Self)
        ensures
            r == PortTypeFilter::All,
    {
        PortTypeFilter::All
    }
}

impl Preset {
    /// An empty preset of version 1.
    pub fn new(name: &str) -> (r: Self)
        ensures
            r.name@ == name@,
            r.version == 1,
            r.connections@.len() == 0,
            r.node_renames@.len() == 0,
            r.pinned_connections@.len() == 0,
    {
        Preset {
            name: String::from_str(name),
            version: 1,
            connections: Vec::new(),
            node_renames: Vec::new(),
            pinned_connections: Vec::new(),
        }
    }
}

/// Whether a pattern of the `regex` crate, once compiled, finds a match
/// somewhere in a text.
pub uninterp spec fn regex_is_match(pattern: Seq<char>, text: Seq<char>) -> bool;

/// `regex::Regex::new` followed by `Regex::is_match`: compiles the pattern
/// and, where that succeeds, searches the text. A pattern that does not
/// compile gives nothing; whether one compiles may depend on the size limit
/// of the machine, so nothing is claimed of it. What a compiled pattern
/// finds depends on pattern and text alone.
#[verifier::external_body]
pub(crate) fn regex_search(pattern: &str, text: &str) -> (r: Option<bool>)
    ensures
        r matches Some(found) ==> found == regex_is_match(pattern@, text@),
{
    match regex::Regex::new(pattern) {
        Ok(re) => Some(re.is_match(text)),
        Err(_) => None,
    }
}

/// The characters of an optional string slice.
pub open spec fn opt_str_chars(a: Option<&str>) -> Option<Seq<char>> {
    match a {
        Some(s) => Some(s@),
        None => None,
    }
}

/// Whether the outcome of a pattern search is one that the pattern allows:
/// a search that ran says what the pattern finds.
pub open spec fn search_agrees(pattern: Seq<char>, text: Seq<char>, outcome: Option<bool>) -> bool {
    outcome matches Some(found) ==> found == regex_is_match(pattern, text)
}

impl NodeMatcher {
    /// A matcher for the literal name.
    pub fn new(name: &str) -> (r: Self)
        ensures
            r.name@ == name@,
            r.app_name.is_none(),
            r.object_path.is_none(),
            !r.use_regex,
    {
        NodeMatcher { name: String::from_str(name), app_name: None, object_path: None, use_regex: false }
    }

    /// The same matcher, asking for an application name too.
    pub fn with_app_name(self, app_name: &str) -> (r: Self)
        ensures
            r.name == self.name,
            opt_chars(r.app_name) == Some(app_name@),
            r.object_path == self.object_path,
            r.use_regex == self.use_regex,
    {
        let mut m = self;
        m.app_name = Some(String::from_str(app_name));
        m
    }

    /// The same matcher, asking for a hardware path.
    pub fn with_object_path(self, path: &str) -> (r: Self)
        ensures
            r.name == self.name,
            r.app_name == self.app_name,
            opt_chars(r.object_path) == Some(path@),
            r.use_regex == self.use_regex,
    {
        let mut m = self;
        m.object_path = Some(String::from_str(path));
        m
    }

    /// Whether the matcher accepts a node, given what the pattern searches
    /// brought, where patterns are in use.
    ///
    /// Where matcher and node both have a hardware path, the path decides
    /// alone. Else the name decides, and the application name where the
    /// matcher asks for one. A pattern search that did not run, because the
    /// pattern is no valid one, counts as no match.
    pub open spec fn verdict(
        self,
        name: Seq<char>,
        app: Option<Seq<char>>,
        path: Option<Seq<char>>,
        path_search: Option<bool>,
        name_search: Option<bool>,
    ) -> bool {
        match (opt_chars(self.object_path), path) {
            (Some(own), Some(theirs)) => if self.use_regex {
                path_search == Some(true)
            } else {
                own == theirs
            },
            _ => {
                let name_fits = if self.use_regex {
                    name_search == Some(true)
                } else {
                    self.name@ == name
                };
                name_fits && match opt_chars(self.app_name) {
                    Some(wanted) => app == Some(wanted),
                    None => true,
                }
            },
        }
    }

    /// Decides whether the matcher accepts a node, from what the pattern
    /// searches on path and name brought.
    pub fn decide(
        &self,
        name: &str,
        app_name: Option<&str>,
        object_path: Option<&str>,
        path_search: Option<bool>,
        name_search: Option<bool>,
    ) -> (r: bool)
        ensures
            r == self.verdict(name@, opt_str_chars(app_name), opt_str_chars(object_path), path_search, name_search),
    {
        match (&self.object_path, object_path) {
            (Some(own), Some(theirs)) => {
                if self.use_regex {
                    match path_search {
                        Some(found) => found,
                        None => false,
                    }
                } else {
                    *own == String::from_str(theirs)
                }
            },
            _ => {
                let name_fits = if self.use_regex {
                    match name_search {
                        Some(found) => found,
                        None => false,
                    }
                } else {
                    self.name == String::from_str(name)
                };
                if !name_fits {
                    return false;
                }
                match &self.app_name {
                    Some(wanted) => match app_name {
                        Some(theirs) => *wanted == String::from_str(theirs),
                        None => false,
                    },
                    None => true,
                }
            },
        }
    }

    /// Checks whether the matcher accepts a node with the given name,
    /// application name and hardware path.
    ///
    /// With literal matching the answer is that of `verdict`. With patterns
    /// it is that of `verdict` on what the searches brought: a search that
    /// ran says what the pattern finds, one that did not run counts as no
    /// match.
    pub fn matches(&self, name: &str, app_name: Option<&str>, object_path: Option<&str>) -> (r: bool)
        ensures
            !self.use_regex ==> r == self.verdict(
                name@,
                opt_str_chars(app_name),
                opt_str_chars(object_path),
                None,
                None,
            ),
            exists|path_search: Option<bool>, name_search: Option<bool>|
                {
                    &&& match (opt_chars(self.object_path), opt_str_chars(object_path)) {
                        (Some(own), Some(theirs)) => search_agrees(own, theirs, path_search),
                        _ => path_search.is_none(),
                    }
                    &&& search_agrees(self.name@, name@, name_search)
                    &&& r == #[trigger] self.verdict(
                        name@,
                        opt_str_chars(app_name),
                        opt_str_chars(object_path),
                        path_search,
                        name_search,
                    )
                },
    {
        let path_search: Option<bool> = match (&self.object_path, object_path) {
            (Some(own), Some(theirs)) => {
                if self.use_regex {
                    regex_search(own.as_str(), theirs)
                } else {
                    None
                }
            },
            _ => None,
        };
        let by_path = self.object_path.is_some() && object_path.is_some();
        let name_search: Option<bool> = if self.use_regex && !by_path {
            regex_search(self.name.as_str(), name)
        } else {
            None
        };
        let r = self.decide(name, app_name, object_path, path_search, name_search);
        assert(r == self.verdict(
            name@,
            opt_str_chars(app_name),
            opt_str_chars(object_path),
            path_search,
            name_search,
        ));
        r
    }
}

} // verus!
