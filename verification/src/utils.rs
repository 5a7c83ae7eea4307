//! Paths, extensions and the options of a run.
use vstd::prelude::*;
use vstd::string::*;
use crate::error::{ErrorView, SiteBuilderError};
use crate::markdown::RenderOptions;
use crate::text::{
    chars_of, find_last, glue_all, last_index_of, matches_at, push_range, same_chars, starts_with,
    text_view, views,
};

verus! {

/// The directory, below the data directory, that holds the site's sources.
pub const SITE_DIR: &'static str = "site";

/// The extensions of the file types that the remote host accepts.
pub const ALLOWED_FILE_TYPES: [&'static str; 51] = [
    "asc", "atom", "bin", "css", "csv", "dae", "eot", "epub", "geojson", "gif", "gltf",
    "htm", "html", "ico", "jpeg", "jpg", "js", "json", "key", "kml", "knowl", "less",
    "manifest", "markdown", "md", "mf", "mid", "midi", "mtl", "obj", "opml", "otf", "pdf",
    "pgp", "png", "rdf", "rss", "sass", "scss", "svg", "text", "tsv", "ttf", "txt",
    "webapp", "webmanifest", "webp", "woff", "woff2", "xcf", "xml",
];

/// The extension of markdown sources.
pub const MARKDOWN_EXTENSION: &'static str = "md";

/// What the command line selects for a run.
pub struct Options {
    /// The data directory, which holds the site and its configuration.
    pub data_dir: String,
    /// Markdown files to publish as they are.
    pub md_ignore: Vec<String>,
    /// Substitution rules, each written as a trigger, `=` and the text that
    /// takes its place.
    pub md_replace: Vec<String>,
    /// Whether file extensions are held against the allowed file types.
    pub check_extensions: bool,
    /// The directory to write the site to, where it is not sent to the
    /// remote host.
    pub local: Option<String>,
    /// Whether the run only plans and reports, and changes nothing.
    pub dry_run: bool,
    /// The dialect of markdown to render.
    pub md_options: RenderOptions,
}

/// The mathematical value of `Options`.
pub struct OptionsView {
    pub data_dir: Seq<char>,
    pub md_ignore: Seq<Seq<char>>,
    pub md_replace: Seq<Seq<char>>,
    pub check_extensions: bool,
    pub local: Option<Seq<char>>,
    pub dry_run: bool,
    pub md_options: RenderOptions,
}

impl View for Options {
    type V = OptionsView;

    open spec fn view(&self) -> OptionsView {
        OptionsView {
            data_dir: self.data_dir@,
            md_ignore: views(self.md_ignore@),
            md_replace: views(self.md_replace@),
            check_extensions: self.check_extensions,
            local: text_view(self.local),
            dry_run: self.dry_run,
            md_options: self.md_options,
        }
    }
}

impl OptionsView {
    /// The options of a run whose command line selects nothing: the data
    /// directory is the current one, extensions are checked, the site goes
    /// to the remote host, and the markdown dialect has no extension.
    pub open spec fn initial() -> OptionsView {
        OptionsView {
            data_dir: "."@,
            md_ignore: Seq::empty(),
            md_replace: Seq::empty(),
            check_extensions: true,
            local: None,
            dry_run: false,
            md_options: RenderOptions::plain(),
        }
    }
}

impl Default for Options {
    /// Empty options: no directory, no rules, every switch off.
    fn default() -> (o: Options)
        ensures
            o@ == (OptionsView {
                data_dir: Seq::empty(),
                md_ignore: Seq::empty(),
                md_replace: Seq::empty(),
                check_extensions: false,
                local: None,
                dry_run: false,
                md_options: RenderOptions::plain(),
            }),
    {
        let o = Options {
            data_dir: String::new(),
            md_ignore: Vec::new(),
            md_replace: Vec::new(),
            check_extensions: false,
            local: None,
            dry_run: false,
            md_options: RenderOptions::default(),
        };
        assert(views(o.md_ignore@) =~= Seq::empty());
        o
    }
}

impl Options {
    /// The options before the command line is read.
    pub fn new() -> (o: Options)
        ensures
            o@ == OptionsView::initial(),
    {
        let o = Options {
            data_dir: ".".to_owned(),
            md_ignore: Vec::new(),
            md_replace: Vec::new(),
            check_extensions: true,
            local: None,
            dry_run: false,
            md_options: RenderOptions::default(),
        };
        assert(views(o.md_ignore@) =~= Seq::empty());
        o
    }

    /// The outcome of reading the command line. `parsed` holds the options
    /// as the parser filled them in, or the status with which the parser
    /// asks to stop: 0 after it has printed the usage, anything else after a
    /// misuse.
    pub fn get(parsed: Result<Options, i32>) -> (res: Result<Options, SiteBuilderError>)
        ensures
            match parsed {
                Ok(o) => res == Ok::<Options, SiteBuilderError>(o),
                Err(status) => res is Err && res->Err_0@ == (if status == 0 {
                    ErrorView::EarlyExit
                } else {
                    ErrorView::ArgumentError
                }),
            },
    {
        match parsed {
            Ok(o) => Ok(o),
            Err(status) => {
                if status == 0 {
                    Err(SiteBuilderError::EarlyExit)
                } else {
                    Err(SiteBuilderError::ArgumentError)
                }
            },
        }
    }
}

/// The path on the remote site of the file at `path`: what follows the site
/// directory, where `path` lies below it.
pub open spec fn remote_path(path: Seq<char>) -> Option<Seq<char>> {
    let root = SITE_DIR@.len() as int;
    if starts_with(path, SITE_DIR@) && path.len() > root && path[root] == '/' {
        Some(path.skip(root))
    } else {
        None
    }
}

/// The extension of the file at `path`: what follows the last dot of the
/// file's name. The name is what follows the last `/`. A name without a dot,
/// a name whose only dot comes first, and the name `..` have no extension.
pub open spec fn extension(path: Seq<char>) -> Option<Seq<char>> {
    let name_start = last_index_of(path, '/') + 1;
    let dot = last_index_of(path, '.');
    if dot <= name_start || path.skip(name_start) == seq!['.', '.'] {
        None
    } else {
        Some(path.skip(dot + 1))
    }
}

/// Whether `ext` is the extension of an allowed file type. Upper and lower
/// case differ.
pub open spec fn is_allowed(ext: Seq<char>) -> bool {
    exists|i: int| 0 <= i < ALLOWED_FILE_TYPES@.len() && (#[trigger] ALLOWED_FILE_TYPES@[i])@ == ext
}

/// The remote path of the file that the walk of the site directory found at
/// `p`. It begins with `/`. A path that does not lie below the site
/// directory is refused.
pub fn get_remote_path(p: &str) -> (res: Result<String, SiteBuilderError>)
    ensures
        match remote_path(p@) {
            Some(r) => res is Ok && res->Ok_0@ == r && r.len() > 0 && r[0] == '/',
            None => res is Err && res->Err_0@ == ErrorView::PathError(p@),
        },
{
    let chars = chars_of(p);
    let root = chars_of(SITE_DIR);
    if matches_at(&chars, &root, 0) && chars.len() > root.len() && chars[root.len()] == '/' {
        let mut site_path = String::new();
        push_range(&mut site_path, &chars, root.len(), chars.len());
        Ok(site_path)
    } else {
        Err(SiteBuilderError::PathError(p.to_owned()))
    }
}

/// The elements of `vec` in order, each followed by `glue`.
pub fn glue_vec_with(vec: &Vec<String>, glue: char) -> (ret: String)
    ensures
        ret@ == glue_all(views(vec@), glue),
{
    let mut ret = String::new();
    let mut i: usize = 0;
    while i < vec.len()
        invariant
            i <= vec.len(),
            ret@ == glue_all(views(vec@).take(i as int), glue),
        decreases vec.len() - i,
    {
        ret.append(vec[i].as_str());
        ret.push(glue);
        assert(views(vec@).take(i + 1).drop_last() == views(vec@).take(i as int));
        i = i + 1;
    }
    assert(views(vec@).take(vec.len() as int) == views(vec@));
    ret
}

/// The extension of the file at `path`, if it has one.
pub fn file_extension(path: &str) -> (res: Option<String>)
    ensures
        match extension(path@) {
            Some(e) => res is Some && res->0@ == e,
            None => res is None,
        },
{
    let chars = chars_of(path);
    let name_start: usize = match find_last(&chars, '/') {
        Some(i) => i + 1,
        None => 0,
    };
    match find_last(&chars, '.') {
        Some(dot) => {
            let is_parent = chars.len() - name_start == 2 && chars[name_start] == '.' && chars[name_start
                + 1] == '.';
            assert(is_parent == (chars@.skip(name_start as int) == seq!['.', '.'])) by {
                if is_parent {
                    assert(chars@.skip(name_start as int) =~= seq!['.', '.']);
                } else if chars@.skip(name_start as int) == seq!['.', '.'] {
                    assert(chars@.skip(name_start as int).len() == 2);
                }
            }
            if dot <= name_start || is_parent {
                None
            } else {
                let mut ext = String::new();
                push_range(&mut ext, &chars, dot + 1, chars.len());
                Some(ext)
            }
        },
        None => None,
    }
}

/// Whether `ext` is the extension of an allowed file type.
pub fn is_allowed_file_type(ext: &str) -> (r: bool)
    ensures
        r == is_allowed(ext@),
{
    let wanted = chars_of(ext);
    let mut i: usize = 0;
    while i < ALLOWED_FILE_TYPES.len()
        invariant
            i <= ALLOWED_FILE_TYPES@.len(),
            wanted@ == ext@,
            forall|k: int| 0 <= k < i ==> (#[trigger] ALLOWED_FILE_TYPES@[k])@ != ext@,
        decreases ALLOWED_FILE_TYPES@.len() - i,
    {
        let known = chars_of(ALLOWED_FILE_TYPES[i]);
        if same_chars(&known, &wanted) {
            return true;
        }
        i = i + 1;
    }
    false
}

} // verus!
