//! Configuration for HTML rendering: per-wiki paths and names, and the
//! option groups a renderer reads. Paths are held as plain
//! slash-separated strings.

use vstd::prelude::*;
use crate::chars::{chars_to_string, slice_to_string, str_to_chars};

verus! {

/// The URI reference type of the uriparse crate, opaque here.
#[verifier::external_type_specification]
#[verifier::external_body]
pub struct ExRelativeReference<'a>(uriparse::RelativeReference<'a>);

/// The parse-failure type of the uriparse crate, opaque here.
#[verifier::external_type_specification]
#[verifier::external_body]
pub struct ExRelativeReferenceError(uriparse::RelativeReferenceError);

/// Relies on `dirs::home_dir`: the platform's home directory, when the
/// platform reports one; the result depends on the environment, so
/// nothing is promised of it.
#[verifier::external_body]
fn home_dir_string() -> Option<String> {
    dirs::home_dir().map(|p| p.to_string_lossy().to_string())
}

// ---------------------------------------------------------------------------
// Path helpers
// ---------------------------------------------------------------------------

/// The path `p` relative to `root`: all of `p` when `root` is empty,
/// empty when they are equal, the part after the separator when `root`
/// is a leading directory of `p`, and nothing otherwise.
pub open spec fn spec_path_within(root: Seq<char>, p: Seq<char>) -> Option<Seq<char>> {
    if root.len() == 0 {
        Some(p)
    } else if p == root {
        Some(Seq::empty())
    } else if p.len() > root.len() && p.subrange(0, root.len() as int) == root && p[
        root.len() as int
    ] == '/' {
        Some(p.skip(root.len() as int + 1))
    } else {
        None
    }
}

/// The first index at or after `j` holding a separator, or the end.
pub open spec fn slash_or_end(s: Seq<char>, j: int) -> int
    decreases s.len() - j,
{
    if j < 0 || j >= s.len() {
        s.len() as int
    } else if s[j] == '/' {
        j
    } else {
        slash_or_end(s, j + 1)
    }
}

pub proof fn lemma_slash_or_end(s: Seq<char>, j: int)
    requires
        0 <= j <= s.len(),
    ensures
        j <= slash_or_end(s, j) <= s.len(),
    decreases s.len() - j,
{
    if j < s.len() && s[j] != '/' {
        lemma_slash_or_end(s, j + 1);
    }
}

/// The count of non-empty components of a slash-separated path.
pub open spec fn comp_count(s: Seq<char>, j: int) -> int
    decreases s.len() - j,
        via comp_count_decreases
{
    if j < 0 || j >= s.len() {
        0
    } else if s[j] == '/' {
        comp_count(s, j + 1)
    } else {
        1 + comp_count(s, slash_or_end(s, j))
    }
}

#[via_fn]
proof fn comp_count_decreases(s: Seq<char>, j: int) {
    if 0 <= j < s.len() && s[j] != '/' {
        lemma_slash_or_end(s, j + 1);
        assert(slash_or_end(s, j) > j);
    }
}

/// The relative path made of `n` `..` steps.
pub open spec fn spec_dotdots(n: int) -> Seq<char>
    decreases n,
{
    if n <= 0 {
        Seq::empty()
    } else if n == 1 {
        seq!['.', '.']
    } else {
        spec_dotdots(n - 1) + seq!['/', '.', '.']
    }
}

/// The start of the last component of a path: the index after the last
/// separator.
pub open spec fn last_comp_start(s: Seq<char>, j: int) -> int
    decreases j,
{
    if j <= 0 {
        0
    } else if s[j - 1] == '/' {
        j
    } else {
        last_comp_start(s, j - 1)
    }
}

/// Spaces replaced by underscores.
pub open spec fn spec_underscored(s: Seq<char>) -> Seq<char> {
    s.map_values(
        |c: char|
            if c == ' ' {
                '_'
            } else {
                c
            },
    )
}

/// Counts the non-empty components of a path.
pub fn count_components(v: &Vec<char>) -> (r: usize)
    ensures
        r == comp_count(v@, 0),
{
    let n = v.len();
    let mut count: usize = 0;
    let mut j: usize = 0;
    while j < n
        invariant
            0 <= j <= n == v@.len(),
            count <= j,
            comp_count(v@, 0) == count + comp_count(v@, j as int),
        decreases n - j,
    {
        if v[j] == '/' {
            j += 1;
        } else {
            proof {
                lemma_slash_or_end(v@, j as int);
            }
            let mut e: usize = j;
            while e < n && v[e] != '/'
                invariant
                    j <= e <= n == v@.len(),
                    slash_or_end(v@, j as int) == slash_or_end(v@, e as int),
                decreases n - e,
            {
                e += 1;
            }
            count += 1;
            j = e;
        }
    }
    count
}

/// Builds the `../..`-style path of `n` steps up.
pub fn dotdots(n: usize) -> (r: String)
    ensures
        r@ == spec_dotdots(n as int),
{
    let mut out: Vec<char> = Vec::new();
    let mut k: usize = 0;
    while k < n
        invariant
            0 <= k <= n,
            out@ == spec_dotdots(k as int),
        decreases n - k,
    {
        if k == 0 {
            out.push('.');
            out.push('.');
        } else {
            out.push('/');
            out.push('.');
            out.push('.');
        }
        assert(out@ =~= spec_dotdots(k + 1));
        k += 1;
    }
    chars_to_string(&out)
}

// ---------------------------------------------------------------------------
// The wiki entry
// ---------------------------------------------------------------------------

/// One wiki known to the renderer: where it lives, where its HTML goes,
/// and how pages refer to it.
#[derive(Debug, PartialEq, Eq)]
pub struct HtmlWikiConfig {
    /// Path to the wiki on the local machine.
    pub path: String,
    /// Path to the HTML output of the wiki on the local machine.
    pub path_html: String,
    /// Optional name, for named links.
    pub name: Option<String>,
    /// Name of the css file used for the wiki's pages.
    pub css_name: String,
    /// Path of the diary directory, relative to the wiki's path.
    pub diary_rel_path: String,
}

impl Clone for HtmlWikiConfig {
    fn clone(&self) -> (r: Self)
        ensures
            r == *self,
    {
        HtmlWikiConfig {
            path: self.path.clone(),
            path_html: self.path_html.clone(),
            name: match &self.name {
                Some(n) => Some(n.clone()),
                None => None,
            },
            css_name: self.css_name.clone(),
            diary_rel_path: self.diary_rel_path.clone(),
        }
    }
}

impl HtmlWikiConfig {
    /// The raw path of the wiki's root directory.
    pub fn get_root_path(&self) -> (r: &String)
        ensures
            r == &self.path,
    {
        &self.path
    }

    /// The given path relative to the wiki's root, when it falls within
    /// the wiki.
    pub fn path_within(&self, path: &str) -> (r: Option<String>)
        ensures
            match r {
                Some(s) => spec_path_within(self.path@, path@) == Some(s@),
                None => spec_path_within(self.path@, path@) is None,
            },
    {
        let rv = str_to_chars(self.path.as_str());
        let pv = str_to_chars(path);
        let rl = rv.len();
        let pl = pv.len();
        if rl == 0 {
            return Some(chars_to_string(&pv));
        }
        if pl < rl {
            proof {
                if pv@ == rv@ {
                    assert(pv@.len() == rv@.len());
                }
            }
            return None;
        }
        let mut k: usize = 0;
        while k < rl
            invariant
                0 <= k <= rl == rv@.len(),
                1 <= rl,
                rl <= pl == pv@.len(),
                rv@ == self.path@,
                pv@ == path@,
                forall|m: int| 0 <= m < k ==> pv@[m] == rv@[m],
            decreases rl - k,
        {
            if pv[k] != rv[k] {
                proof {
                    if pv@ == rv@ {
                        assert(pv@[k as int] == rv@[k as int]);
                    }
                    if pv@.len() > rv@.len() && pv@.subrange(0, rv@.len() as int) == rv@ {
                        assert(pv@.subrange(0, rv@.len() as int)[k as int] == pv@[k as int]);
                    }
                }
                return None;
            }
            k += 1;
        }
        if pl == rl {
            assert(pv@ =~= rv@);
            let empty: Vec<char> = Vec::new();
            return Some(chars_to_string(&empty));
        }
        assert(pv@.subrange(0, rv@.len() as int) =~= rv@);
        proof {
            assert(pv@ != rv@) by {
                assert(pv@.len() != rv@.len());
            }
        }
        if pv[rl] == '/' {
            Some(slice_to_string(&pv, rl + 1, pl))
        } else {
            None
        }
    }

    /// The relative path from the given page back to the wiki's root,
    /// one `..` per directory, when the page falls within the wiki.
    pub fn path_to_root(&self, path: &str) -> (r: Option<String>)
        ensures
            match spec_path_within(self.path@, path@) {
                Some(rest) => if comp_count(rest, 0) > 0 {
                    r matches Some(s) && s@ == spec_dotdots(comp_count(rest, 0) - 1)
                } else {
                    r is None
                },
                None => r is None,
            },
    {
        match self.path_within(path) {
            Some(rest) => {
                let restv = str_to_chars(rest.as_str());
                let hops = count_components(&restv);
                if hops > 0 {
                    Some(dotdots(hops - 1))
                } else {
                    None
                }
            },
            None => None,
        }
    }

    /// The wiki's display name: its given name, or the last component
    /// of its path, or a fixed fallback; spaces become underscores.
    pub fn get_name_or_default(&self) -> (r: String)
        ensures
            r@ == spec_underscored(
                match self.name {
                    Some(n) => n@,
                    None => if self.path@.len() > 0 {
                        self.path@.skip(last_comp_start(self.path@, self.path@.len() as int))
                    } else {
                        default_wiki_name_chars()
                    },
                },
            ),
    {
        let basev: Vec<char> = match &self.name {
            Some(n) => str_to_chars(n.as_str()),
            None => {
                let pv = str_to_chars(self.path.as_str());
                let pl = pv.len();
                if pl == 0 {
                    let w = vec!['v', 'i', 'm', 'w', 'i', 'k', 'i'];
                    proof {
                        assert(w@ =~= default_wiki_name_chars());
                    }
                    w
                } else {
                    let mut j: usize = pl;
                    while j > 0 && pv[j - 1] != '/'
                        invariant
                            0 <= j <= pl == pv@.len(),
                            last_comp_start(pv@, pl as int) == last_comp_start(pv@, j as int),
                        decreases j,
                    {
                        j -= 1;
                    }
                    crate::chars::slice_vec(&pv, j, pl)
                }
            },
        };
        let mut out: Vec<char> = Vec::new();
        let n = basev.len();
        let mut k: usize = 0;
        while k < n
            invariant
                0 <= k <= n == basev@.len(),
                out@ == spec_underscored(basev@.take(k as int)),
            decreases n - k,
        {
            let c = basev[k];
            out.push(
                if c == ' ' {
                    '_'
                } else {
                    c
                },
            );
            assert(out@ =~= spec_underscored(basev@.take(k + 1)));
            k += 1;
        }
        assert(basev@.take(n as int) =~= basev@);
        chars_to_string(&out)
    }

    /// Relies on `uriparse::RelativeReference::try_from` (and
    /// `into_owned`): parses the wiki's display name as a relative URI
    /// reference, or reports why it is not one.
    #[verifier::external_body]
    fn parse_relative_reference(s: &str) -> Result<
        uriparse::RelativeReference<'static>,
        uriparse::RelativeReferenceError,
    > {
        Ok(uriparse::RelativeReference::try_from(s)?.into_owned())
    }

    /// The URI reference of this wiki within an HTML document tree,
    /// built from its display name.
    pub fn to_relative_reference(&self) -> Result<
        uriparse::RelativeReference<'static>,
        uriparse::RelativeReferenceError,
    > {
        Self::parse_relative_reference(self.get_name_or_default().as_str())
    }

    pub fn default_path() -> (r: String)
        ensures
            r@ == Seq::<char>::empty(),
    {
        String::new()
    }

    /// The default HTML output path: a directory under the home
    /// directory when the platform reports one.
    pub fn default_path_html() -> String {
        let base = match home_dir_string() {
            Some(h) => h,
            None => String::new(),
        };
        Self::join_under(base)
    }

    /// Appends the default wiki directory name to a base path.
    fn join_under(base: String) -> (r: String)
        ensures
            r@ == base@ + seq!['/', 'v', 'i', 'm', 'w', 'i', 'k', 'i'],
    {
        let mut out = base;
        out.append("/vimwiki");
        proof {
            reveal_strlit("/vimwiki");
        }
        out
    }

    pub fn default_name() -> (r: Option<String>)
        ensures
            r is None,
    {
        None
    }

    pub fn default_css_name() -> (r: String)
        ensures
            r@ == "style.css"@,
    {
        String::from_str("style.css")
    }

    pub fn default_diary_rel_path() -> (r: String)
        ensures
            r@ == "diary"@,
    {
        String::from_str("diary")
    }
}

pub open spec fn default_wiki_name_chars() -> Seq<char> {
    seq!['v', 'i', 'm', 'w', 'i', 'k', 'i']
}

impl Default for HtmlWikiConfig {
    /// The wiki entry with every field at its default.
    fn default() -> (r: Self)
        ensures
            r.path@ == Seq::<char>::empty(),
            r.name is None,
            r.css_name@ == "style.css"@,
            r.diary_rel_path@ == "diary"@,
    {
        HtmlWikiConfig {
            path: Self::default_path(),
            path_html: Self::default_path_html(),
            name: Self::default_name(),
            css_name: Self::default_css_name(),
            diary_rel_path: Self::default_diary_rel_path(),
        }
    }
}

// ---------------------------------------------------------------------------
// Runtime state
// ---------------------------------------------------------------------------

/// Runtime-only settings: which wiki the active page belongs to and
/// where that page lives.
#[derive(Debug, PartialEq, Eq)]
pub struct HtmlRuntimeConfig {
    /// Index of the wiki that contains the page being processed.
    pub wiki_index: Option<usize>,
    /// Path of the page's file.
    pub page: String,
}

impl HtmlRuntimeConfig {
    /// Index of the wiki that contains the page being processed.
    pub fn active_wiki_index(&self) -> (r: Option<usize>)
        ensures
            r == self.wiki_index,
    {
        self.wiki_index
    }

    /// Raw file path of the page being processed.
    pub fn active_page(&self) -> (r: &String)
        ensures
            r == &self.page,
    {
        &self.page
    }

    /// A temporary wiki that treats the page being processed as the only
    /// file within it: its path is the page's parent directory.
    pub fn to_tmp_wiki(&self) -> (r: HtmlWikiConfig)
        ensures
            ({
                let pv = self.page@;
                let cut = last_comp_start(pv, pv.len() as int);
                r.path@ == if cut > 0 {
                    pv.subrange(0, cut - 1)
                } else {
                    Seq::<char>::empty()
                }
            }),
            r.name is None,
            r.css_name@ == "style.css"@,
            r.diary_rel_path@ == "diary"@,
    {
        let pv = str_to_chars(self.page.as_str());
        let pl = pv.len();
        let mut j: usize = pl;
        while j > 0 && pv[j - 1] != '/'
            invariant
                0 <= j <= pl == pv@.len(),
                last_comp_start(pv@, pl as int) == last_comp_start(pv@, j as int),
            decreases j,
        {
            j -= 1;
        }
        let parent = if j > 0 {
            slice_to_string(&pv, 0, j - 1)
        } else {
            String::new()
        };
        let mut w = HtmlWikiConfig::default();
        w.path = parent;
        w
    }
}

impl Default for HtmlRuntimeConfig {
    /// No active wiki and an empty page path.
    fn default() -> (r: Self)
        ensures
            r.wiki_index is None,
            r.page@ == Seq::<char>::empty(),
    {
        HtmlRuntimeConfig { wiki_index: None, page: String::new() }
    }
}

// ---------------------------------------------------------------------------
// Option groups
// ---------------------------------------------------------------------------

/// Options for list rendering.
#[derive(Clone, Copy, Debug, PartialEq, Eq, Structural)]
pub struct HtmlListConfig {
    /// When true, line breaks inside lists are ignored rather than kept.
    pub ignore_newline: bool,
}

impl HtmlListConfig {
    pub fn default_ignore_newline() -> (r: bool)
        ensures
            r == true,
    {
        true
    }
}

impl Default for HtmlListConfig {
    fn default() -> (r: Self)
        ensures
            r.ignore_newline == true,
    {
        HtmlListConfig { ignore_newline: true }
    }
}

/// Options for paragraph text rendering.
#[derive(Clone, Copy, Debug, PartialEq, Eq, Structural)]
pub struct HtmlTextConfig {
    /// When true, line breaks inside paragraphs are ignored rather than
    /// kept.
    pub ignore_newline: bool,
}

impl HtmlTextConfig {
    pub fn default_ignore_newline() -> (r: bool)
        ensures
            r == true,
    {
        true
    }
}

impl Default for HtmlTextConfig {
    fn default() -> (r: Self)
        ensures
            r.ignore_newline == true,
    {
        HtmlTextConfig { ignore_newline: true }
    }
}

/// Options for link rendering.
#[derive(Clone, Debug, PartialEq, Eq)]
pub struct HtmlLinkConfig {
    /// The base URL used when forming absolute links.
    pub base_url: String,
    /// When true, relative links are canonicalized against the base URL.
    pub canonicalize: bool,
    /// When true, pages link as `page.html` rather than `page/`.
    pub use_ugly_urls: bool,
}

impl HtmlLinkConfig {
    pub fn default_base_url() -> (r: String)
        ensures
            r@ == "https://localhost"@,
    {
        String::from_str("https://localhost")
    }

    pub fn default_canonicalize() -> (r: bool)
        ensures
            r == false,
    {
        false
    }

    pub fn default_use_ugly_urls() -> (r: bool)
        ensures
            r == false,
    {
        false
    }
}

impl Default for HtmlLinkConfig {
    fn default() -> (r: Self)
        ensures
            r.base_url@ == "https://localhost"@,
            r.canonicalize == false,
            r.use_ugly_urls == false,
    {
        HtmlLinkConfig {
            base_url: Self::default_base_url(),
            canonicalize: false,
            use_ugly_urls: false,
        }
    }
}

/// Options for header rendering.
#[derive(Clone, Debug, PartialEq, Eq)]
pub struct HtmlHeaderConfig {
    /// The text a header holds to be treated as the table of contents.
    pub table_of_contents: String,
}

impl HtmlHeaderConfig {
    pub fn default_table_of_contents() -> (r: String)
        ensures
            r@ == "Contents"@,
    {
        String::from_str("Contents")
    }
}

impl Default for HtmlHeaderConfig {
    fn default() -> (r: Self)
        ensures
            r.table_of_contents@ == "Contents"@,
    {
        HtmlHeaderConfig { table_of_contents: Self::default_table_of_contents() }
    }
}

/// Options for code-block rendering.
#[derive(Clone, Debug, PartialEq, Eq)]
pub struct HtmlCodeConfig {
    /// The built-in theme for server-side syntax highlighting.
    pub theme: String,
    /// A directory of extra theme files, when one is configured.
    pub theme_dir: Option<String>,
    /// When true, highlighting happens server-side.
    pub server_side: bool,
    /// A directory of extra syntax files, when one is configured.
    pub syntax_dir: Option<String>,
}

impl HtmlCodeConfig {
    pub fn default_theme() -> (r: String)
        ensures
            r@ == "InspiredGitHub"@,
    {
        String::from_str("InspiredGitHub")
    }

    pub fn default_theme_dir() -> (r: Option<String>)
        ensures
            r is None,
    {
        None
    }

    pub fn default_server_side() -> (r: bool)
        ensures
            r == false,
    {
        false
    }

    pub fn default_syntax_dir() -> (r: Option<String>)
        ensures
            r is None,
    {
        None
    }
}

impl Default for HtmlCodeConfig {
    fn default() -> (r: Self)
        ensures
            r.theme@ == "InspiredGitHub"@,
            r.theme_dir is None,
            r.server_side == false,
            r.syntax_dir is None,
    {
        HtmlCodeConfig {
            theme: Self::default_theme(),
            theme_dir: None,
            server_side: false,
            syntax_dir: None,
        }
    }
}

/// Options for comment rendering.
#[derive(Clone, Copy, Debug, PartialEq, Eq, Structural)]
pub struct HtmlCommentConfig {
    /// When true, comments appear in the HTML output.
    pub visible: bool,
}

impl HtmlCommentConfig {
    pub fn default_visible() -> (r: bool)
        ensures
            r == false,
    {
        false
    }
}

impl Default for HtmlCommentConfig {
    fn default() -> (r: Self)
        ensures
            r.visible == false,
    {
        HtmlCommentConfig { visible: false }
    }
}

/// Options for page templates.
#[derive(Clone, Debug, PartialEq, Eq)]
pub struct HtmlTemplateConfig {
    /// The name of the default template.
    pub name: String,
    /// The file extension of template files.
    pub ext: String,
    /// The directory holding the templates.
    pub dir: String,
    /// The text used when no explicit template is given.
    pub text: String,
}

impl HtmlTemplateConfig {
    /// A template config that renders with the given text.
    pub fn from_text(text: String) -> (r: Self)
        ensures
            r.text == text,
            r.name@ == "default"@,
            r.ext@ == "tpl"@,
    {
        let mut t = Self::default();
        t.text = text;
        t
    }

    pub fn default_name() -> (r: String)
        ensures
            r@ == "default"@,
    {
        String::from_str("default")
    }

    pub fn default_ext() -> (r: String)
        ensures
            r@ == "tpl"@,
    {
        String::from_str("tpl")
    }

    /// The default template directory: under the home directory when
    /// the platform reports one.
    pub fn default_dir() -> String {
        let base = match home_dir_string() {
            Some(h) => h,
            None => String::new(),
        };
        Self::join_templates(base)
    }

    /// Appends the template directory name to a base path.
    fn join_templates(base: String) -> (r: String)
        ensures
            r@ == base@ + "/vimwiki/templates"@,
    {
        let mut out = base;
        out.append("/vimwiki/templates");
        out
    }

    pub fn default_text() -> (r: String)
        ensures
            r@ == "<html><head><title>%title%</title></head><body>%content%</body></html>"@,
    {
        String::from_str(
            "<html><head><title>%title%</title></head><body>%content%</body></html>",
        )
    }
}

impl Default for HtmlTemplateConfig {
    fn default() -> (r: Self)
        ensures
            r.name@ == "default"@,
            r.ext@ == "tpl"@,
    {
        HtmlTemplateConfig {
            name: Self::default_name(),
            ext: Self::default_ext(),
            dir: Self::default_dir(),
            text: Self::default_text(),
        }
    }
}

// ---------------------------------------------------------------------------
// The whole configuration
// ---------------------------------------------------------------------------

/// Everything the HTML renderer reads: the wiki list, the runtime state,
/// and the per-construct option groups.
#[derive(Debug, PartialEq, Eq)]
pub struct HtmlConfig {
    /// Runtime-only state, never saved or loaded.
    pub runtime: HtmlRuntimeConfig,
    /// The known wikis; order matters for indexed wiki links.
    pub wikis: Vec<HtmlWikiConfig>,
    pub list: HtmlListConfig,
    pub text: HtmlTextConfig,
    pub link: HtmlLinkConfig,
    pub header: HtmlHeaderConfig,
    pub code: HtmlCodeConfig,
    pub comment: HtmlCommentConfig,
    pub template: HtmlTemplateConfig,
}

impl Default for HtmlConfig {
    fn default() -> (r: Self)
        ensures
            r.runtime.wiki_index is None,
            r.wikis@.len() == 0,
    {
        HtmlConfig {
            runtime: HtmlRuntimeConfig::default(),
            wikis: Vec::new(),
            list: HtmlListConfig::default(),
            text: HtmlTextConfig::default(),
            link: HtmlLinkConfig::default(),
            header: HtmlHeaderConfig::default(),
            code: HtmlCodeConfig::default(),
            comment: HtmlCommentConfig::default(),
            template: HtmlTemplateConfig::default(),
        }
    }
}

/// The first wiki in `ws[k..]` carrying the given name.
pub open spec fn first_wiki_named(ws: Seq<HtmlWikiConfig>, k: int, name: Seq<char>) -> Option<
    int,
>
    decreases ws.len() - k,
{
    if k < 0 || k >= ws.len() {
        None
    } else if ws[k].name matches Some(n) && n@ == name {
        Some(k)
    } else {
        first_wiki_named(ws, k + 1, name)
    }
}

impl HtmlConfig {
    /// The root path of the wiki the active page belongs to: the named
    /// wiki's path, or the page's parent directory.
    pub open spec fn current_wiki_path(self) -> Seq<char> {
        let found = match self.runtime.wiki_index {
            Some(i) => i < self.wikis@.len(),
            None => false,
        };
        if found {
            self.wikis@[self.runtime.wiki_index->Some_0 as int].path@
        } else {
            let pv = self.runtime.page@;
            let cut = last_comp_start(pv, pv.len() as int);
            if cut > 0 {
                pv.subrange(0, cut - 1)
            } else {
                Seq::<char>::empty()
            }
        }
    }

    /// Whether this config describes one of many wikis.
    pub fn is_multi_wiki(&self) -> (r: bool)
        ensures
            r == (self.wikis@.len() > 0),
    {
        self.wikis.len() > 0
    }

    /// The path of the page referenced in the runtime state.
    pub fn active_page(&self) -> (r: &String)
        ensures
            r == &self.runtime.page,
    {
        self.runtime.active_page()
    }

    /// The wiki config at the given index, if any.
    pub fn find_wiki_by_index(&self, idx: usize) -> (r: Option<&HtmlWikiConfig>)
        ensures
            match r {
                Some(w) => idx < self.wikis@.len() && *w == self.wikis@[idx as int],
                None => idx >= self.wikis@.len(),
            },
    {
        if idx < self.wikis.len() {
            Some(&self.wikis[idx])
        } else {
            None
        }
    }

    /// The wiki config containing the active page, when the runtime
    /// names one that exists.
    pub fn find_active_wiki(&self) -> (r: Option<&HtmlWikiConfig>)
        ensures
            match r {
                Some(w) => self.runtime.wiki_index matches Some(i) && i < self.wikis@.len()
                    && *w == self.wikis@[self.runtime.wiki_index->Some_0 as int],
                None => self.runtime.wiki_index is None || self.runtime.wiki_index->Some_0
                    >= self.wikis@.len(),
            },
    {
        match self.runtime.active_wiki_index() {
            Some(idx) => self.find_wiki_by_index(idx),
            None => None,
        }
    }

    /// The first wiki config with the given name.
    pub fn find_wiki_by_name(&self, name: &str) -> (r: Option<&HtmlWikiConfig>)
        ensures
            match r {
                Some(w) => first_wiki_named(self.wikis@, 0, name@) is Some && *w == self.wikis@[
                    first_wiki_named(self.wikis@, 0, name@)->Some_0
                ],
                None => first_wiki_named(self.wikis@, 0, name@) is None,
            },
    {
        let n = self.wikis.len();
        let mut k: usize = 0;
        while k < n
            invariant
                0 <= k <= n == self.wikis@.len(),
                first_wiki_named(self.wikis@, 0, name@) == first_wiki_named(
                    self.wikis@,
                    k as int,
                    name@,
                ),
            decreases n - k,
        {
            let hit = match &self.wikis[k].name {
                Some(wn) => crate::chars::str_eq(wn.as_str(), name),
                None => false,
            };
            if hit {
                return Some(&self.wikis[k]);
            }
            k += 1;
        }
        None
    }

    /// The wiki containing the active page, copied, or a temporary wiki
    /// holding just that page.
    pub fn to_current_wiki(&self) -> (r: HtmlWikiConfig)
        ensures
            ({
                let found = match self.runtime.wiki_index {
                    Some(i) => i < self.wikis@.len(),
                    None => false,
                };
                if found {
                    r == self.wikis@[self.runtime.wiki_index->Some_0 as int]
                } else {
                    let pv = self.runtime.page@;
                    let cut = last_comp_start(pv, pv.len() as int);
                    &&& r.name is None
                    &&& r.path@ == if cut > 0 {
                        pv.subrange(0, cut - 1)
                    } else {
                        Seq::<char>::empty()
                    }
                }
            }),
    {
        match self.find_active_wiki() {
            Some(w) => w.clone(),
            None => self.runtime.to_tmp_wiki(),
        }
    }

    /// The relative path from the active page up to its wiki's root,
    /// one `..` per directory; an empty path when no wiki claims the
    /// page or the page does not fall inside its wiki.
    pub fn to_active_page_path_to_wiki_root(&self) -> (r: String)
        ensures
            ({
                let found = match self.runtime.wiki_index {
                    Some(i) => i < self.wikis@.len(),
                    None => false,
                };
                if found {
                    let wpath = self.wikis@[self.runtime.wiki_index->Some_0 as int].path@;
                    match spec_path_within(wpath, self.runtime.page@) {
                        Some(rest) => if comp_count(rest, 0) > 0 {
                            r@ == spec_dotdots(comp_count(rest, 0) - 1)
                        } else {
                            r@ == Seq::<char>::empty()
                        },
                        None => r@ == Seq::<char>::empty(),
                    }
                } else {
                    r@ == Seq::<char>::empty()
                }
            }),
    {
        match self.find_active_wiki() {
            Some(w) => {
                match w.path_to_root(self.runtime.page.as_str()) {
                    Some(p) => p,
                    None => String::new(),
                }
            },
            None => String::new(),
        }
    }

    /// The active page's path relative to the wiki that holds it, or to
    /// the temporary wiki's root; the whole path when neither applies.
    pub fn as_active_page_path_within_wiki(&self) -> (r: String)
        ensures
            match spec_path_within(self.current_wiki_path(), self.runtime.page@) {
                Some(s) => r@ == s,
                None => r@ == self.runtime.page@,
            },
    {
        let w = self.to_current_wiki();
        match w.path_within(self.runtime.page.as_str()) {
            Some(p) => p,
            None => {
                let pv = str_to_chars(self.runtime.page.as_str());
                chars_to_string(&pv)
            },
        }
    }
}

} // verus!
