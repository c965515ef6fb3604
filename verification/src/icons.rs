//! The icons of applications: which of them are known, and how an icon file is read.

use crate::apps::{lowercase, to_lowercase};
use crate::text::same_text;
use vstd::hash_map::StringHashMap;
use vstd::prelude::*;

verus! {

/// How an icon file is read.
#[derive(Clone, Copy, Debug, PartialEq, Eq, Structural)]
pub enum IconKind {
    /// As a drawing.
    Vector,
    /// As an image.
    Raster,
    /// Not at all.
    Unknown,
}

/// How a file with this extension, in lower case, is read.
pub open spec fn kind_of(ext: Seq<char>) -> IconKind {
    if ext == "svg"@ || ext == "svgz"@ {
        IconKind::Vector
    } else if ext == "png"@ || ext == "xpm"@ {
        IconKind::Raster
    } else {
        IconKind::Unknown
    }
}

/// How a file with this extension, in lower case, is read.
pub fn kind_of_lower(ext: &str) -> (r: IconKind)
    ensures
        r == kind_of(ext@),
{
    if same_text(ext, "svg") || same_text(ext, "svgz") {
        IconKind::Vector
    } else if same_text(ext, "png") || same_text(ext, "xpm") {
        IconKind::Raster
    } else {
        IconKind::Unknown
    }
}

/// How a file with this extension is read, in whatever case it is written. A file without one is
/// not read.
pub fn icon_kind(ext: Option<&str>) -> (r: IconKind)
    ensures
        r == kind_of(
            lowercase(
                match ext {
                    Some(e) => e@,
                    None => ""@,
                },
            ),
        ),
{
    let lower = to_lowercase(
        match ext {
            Some(e) => e,
            None => "",
        },
    );
    kind_of_lower(lower.as_str())
}

/// The icons that were looked up so far, by name, for one size. An icon that was not found is
/// known, too.
#[verifier::reject_recursive_types(P)]
pub struct IconCache<P> {
    size: u32,
    map: StringHashMap<Option<P>>,
}

impl<P> View for IconCache<P> {
    type V = Map<Seq<char>, Option<P>>;

    closed spec fn view(&self) -> Map<Seq<char>, Option<P>> {
        self.map@
    }
}

impl<P> IconCache<P> {
    /// The side of the icons.
    pub closed spec fn side(&self) -> u32 {
        self.size
    }

    /// An empty cache for icons of this size.
    pub fn new(size: u32) -> (r: IconCache<P>)
        ensures
            r@ == Map::<Seq<char>, Option<P>>::empty(),
            r.side() == size,
    {
        IconCache { size, map: StringHashMap::new() }
    }

    /// The side of the icons.
    pub fn size(&self) -> (r: u32)
        ensures
            r == self.side(),
    {
        self.size
    }

    /// Was this icon looked up before?
    pub fn is_known(&self, name: &str) -> (r: bool)
        ensures
            r == self@.contains_key(name@),
    {
        self.map.contains_key(name)
    }

    /// Keeps what was found for a name.
    pub fn insert(&mut self, name: &str, icon: Option<P>)
        ensures
            final(self)@ == old(self)@.insert(name@, icon),
            final(self).side() == old(self).side(),
    {
        self.map.insert(name.to_owned(), icon);
    }

    /// The icon of this name, if it was looked up and found.
    pub fn get(&self, name: &str) -> (r: Option<&P>)
        ensures
            r == (if self@.contains_key(name@) {
                match self@[name@] {
                    Some(p) => Some(&p),
                    None => None,
                }
            } else {
                None
            }),
    {
        match self.map.get(name) {
            Some(found) => match found {
                Some(p) => Some(p),
                None => None,
            },
            None => None,
        }
    }
}

/// Drawings are the files that end in svg, packed or not; images are those that end in png or xpm;
/// nothing else is read.
pub proof fn icon_files_go_by_their_ending(ext: Seq<char>)
    ensures
        kind_of(ext) == IconKind::Vector <==> ext == seq!['s', 'v', 'g'] || ext == seq![
            's',
            'v',
            'g',
            'z',
        ],
        kind_of(ext) == IconKind::Raster <==> ext == seq!['p', 'n', 'g'] || ext == seq![
            'x',
            'p',
            'm',
        ],
{
    reveal_strlit("svg");
    reveal_strlit("svgz");
    reveal_strlit("png");
    reveal_strlit("xpm");
    assert("svg"@ =~= seq!['s', 'v', 'g']);
    assert("svgz"@ =~= seq!['s', 'v', 'g', 'z']);
    assert("png"@ =~= seq!['p', 'n', 'g']);
    assert("xpm"@ =~= seq!['x', 'p', 'm']);
    assert("svg"@[0] == 's' && "svgz"@[0] == 's' && "png"@[0] == 'p' && "xpm"@[0] == 'x');
}

} // verus!
