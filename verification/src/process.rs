//! The conversion pipeline's decisions: which files count as images, how
//! their titles and output names are formed, which per-image failures are
//! fatal, and how per-image results fold into the size map.

use vstd::prelude::*;

use vstd::string::StrSliceExecFns;
use vstd::string::StringExecFns;

use crate::probe::parse_probe;
use crate::size_map::SizeMap;
use crate::utils::{char_code, to_image_spec, Image, Scale, Scaling, Title};

verus! {

/// An upper-case ASCII letter folded to lower case; any other character is
/// kept as it is.
pub open spec fn lower_char(c: char) -> char {
    if 65 <= c as int <= 90 {
        (c as int + 32) as char
    } else {
        c
    }
}

/// A character sequence with its ASCII letters folded to lower case.
pub open spec fn lower(s: Seq<char>) -> Seq<char> {
    s.map_values(|c: char| lower_char(c))
}

fn lower_char_exec(c: char) -> (r: char)
    ensures
        r == lower_char(c),
{
    let u = char_code(c);
    if 65 <= u && u <= 90 {
        ((u + 32) as u8) as char
    } else {
        c
    }
}

/// The extensions naming a convertible raster format, compared without
/// regard to case.
pub open spec fn is_image_ext(s: Seq<char>) -> bool {
    ||| lower(s) == "png"@
    ||| lower(s) == "jpg"@
    ||| lower(s) == "jpeg"@
    ||| lower(s) == "tiff"@
    ||| lower(s) == "raw"@
}

/// Whether a file extension names a convertible raster format.
pub fn is_image(ext: &str) -> (b: bool)
    ensures
        b == is_image_ext(ext@),
{
    proof {
        reveal_strlit("png");
        reveal_strlit("jpg");
        reveal_strlit("jpeg");
        reveal_strlit("tiff");
        reveal_strlit("raw");
    }
    let n = ext.unicode_len();
    if n == 3 {
        let c0 = lower_char_exec(ext.get_char(0));
        let c1 = lower_char_exec(ext.get_char(1));
        let c2 = lower_char_exec(ext.get_char(2));
        let r = (c0 == 'p' && c1 == 'n' && c2 == 'g') || (c0 == 'j' && c1 == 'p' && c2 == 'g')
            || (c0 == 'r' && c1 == 'a' && c2 == 'w');
        proof {
            assert(lower(ext@).len() == 3);
            assert(lower(ext@)[0] == c0);
            assert(lower(ext@)[1] == c1);
            assert(lower(ext@)[2] == c2);
            if r {
                if c0 == 'p' {
                    assert(lower(ext@) =~= "png"@);
                } else if c0 == 'j' {
                    assert(lower(ext@) =~= "jpg"@);
                } else {
                    assert(lower(ext@) =~= "raw"@);
                }
            }
        }
        r
    } else if n == 4 {
        let c0 = lower_char_exec(ext.get_char(0));
        let c1 = lower_char_exec(ext.get_char(1));
        let c2 = lower_char_exec(ext.get_char(2));
        let c3 = lower_char_exec(ext.get_char(3));
        let r = (c0 == 'j' && c1 == 'p' && c2 == 'e' && c3 == 'g') || (c0 == 't' && c1 == 'i'
            && c2 == 'f' && c3 == 'f');
        proof {
            assert(lower(ext@).len() == 4);
            assert(lower(ext@)[0] == c0);
            assert(lower(ext@)[1] == c1);
            assert(lower(ext@)[2] == c2);
            assert(lower(ext@)[3] == c3);
            if r {
                if c0 == 'j' {
                    assert(lower(ext@) =~= "jpeg"@);
                } else {
                    assert(lower(ext@) =~= "tiff"@);
                }
            }
        }
        r
    } else {
        proof {
            assert(lower(ext@).len() == n);
        }
        false
    }
}

/// The position of the last dot of a file name, or -1 when it has none.
pub open spec fn last_dot(s: Seq<char>) -> int
    decreases s.len(),
{
    if s.len() == 0 {
        -1
    } else if s.last() == '.' {
        s.len() - 1
    } else {
        last_dot(s.drop_last())
    }
}

proof fn lemma_last_dot_range(s: Seq<char>)
    ensures
        -1 <= last_dot(s) < s.len(),
    decreases s.len(),
{
    if s.len() > 0 && s.last() != '.' {
        lemma_last_dot_range(s.drop_last());
    }
}

/// A file's title: its name up to the last dot.  A name without a dot, or
/// whose only dot leads it, is all title, as for hidden files.
pub open spec fn title_of(s: Seq<char>) -> Seq<char> {
    if last_dot(s) <= 0 {
        s
    } else {
        s.subrange(0, last_dot(s))
    }
}

/// A file's extension: what follows the last dot, absent when the name has
/// no dot past its first position.
pub open spec fn ext_of(s: Seq<char>) -> Option<Seq<char>> {
    if last_dot(s) <= 0 {
        None
    } else {
        Some(s.subrange(last_dot(s) + 1, s.len() as int))
    }
}

proof fn lemma_last_dot_char(s: Seq<char>)
    ensures
        last_dot(s) >= 0 ==> s[last_dot(s)] == '.',
        forall|j: int| last_dot(s) < j < s.len() ==> s[j] != '.',
    decreases s.len(),
{
    lemma_last_dot_range(s);
    if s.len() > 0 && s.last() != '.' {
        lemma_last_dot_char(s.drop_last());
        lemma_last_dot_range(s.drop_last());
        if last_dot(s) >= 0 {
            assert(s.drop_last()[last_dot(s)] == s[last_dot(s)]);
        }
        assert forall|j: int| last_dot(s) < j < s.len() implies s[j] != '.' by {
            if j < s.len() - 1 {
                assert(s.drop_last()[j] == s[j]);
            }
        }
    }
}

/// Title and extension really split the name: where a name has an
/// extension, it is its title, a dot, and the extension, in that order.
pub proof fn lemma_title_ext_split(s: Seq<char>)
    requires
        ext_of(s) is Some,
    ensures
        s == title_of(s) + seq!['.'] + ext_of(s)->Some_0,
{
    lemma_last_dot_range(s);
    lemma_last_dot_char(s);
    let k = last_dot(s);
    assert(s =~= s.subrange(0, k) + seq![s[k]] + s.subrange(k + 1, s.len() as int));
}

fn find_last_dot(s: &str) -> (r: Option<usize>)
    ensures
        match r {
            Some(k) => last_dot(s@) == k as int && k < s@.len(),
            None => last_dot(s@) == -1,
        },
{
    proof {
        lemma_last_dot_range(s@);
    }
    let n = s.unicode_len();
    proof {
        assert(s@.subrange(0, n as int) =~= s@);
    }
    let mut i = n;
    while i > 0
        invariant
            i <= n,
            n == s@.len(),
            last_dot(s@) == last_dot(s@.subrange(0, i as int)),
        decreases i,
    {
        let c = s.get_char(i - 1);
        proof {
            let p = s@.subrange(0, i as int);
            assert(p.last() == s@[i - 1]);
            assert(p.drop_last() =~= s@.subrange(0, i - 1));
        }
        if c == '.' {
            return Some(i - 1);
        }
        i -= 1;
    }
    None
}

/// The title of a file name, as an owned string.
pub fn file_title(name: &str) -> (t: String)
    ensures
        t@ == title_of(name@),
{
    match find_last_dot(name) {
        Some(k) => {
            if k > 0 {
                name.substring_char(0, k).to_owned()
            } else {
                name.to_owned()
            }
        },
        None => name.to_owned(),
    }
}

/// The extension of a file name, if it has one.
pub fn file_ext(name: &str) -> (e: Option<String>)
    ensures
        match e {
            Some(x) => ext_of(name@) == Some(x@),
            None => ext_of(name@) is None,
        },
{
    let n = name.unicode_len();
    match find_last_dot(name) {
        Some(k) => {
            if k > 0 {
                Some(name.substring_char(k + 1, n).to_owned())
            } else {
                None
            }
        },
        None => None,
    }
}

/// Whether the source still needs a copy in the archival format: it does
/// whenever its extension is not already the archival one.
pub open spec fn needs_archive_spec(name: Seq<char>) -> bool {
    match ext_of(name) {
        Some(x) => lower(x) != "avif"@,
        None => false,
    }
}

fn is_avif(ext: &str) -> (b: bool)
    ensures
        b == (lower(ext@) == "avif"@),
{
    proof {
        reveal_strlit("avif");
    }
    let n = ext.unicode_len();
    if n == 4 {
        let c0 = lower_char_exec(ext.get_char(0));
        let c1 = lower_char_exec(ext.get_char(1));
        let c2 = lower_char_exec(ext.get_char(2));
        let c3 = lower_char_exec(ext.get_char(3));
        let r = c0 == 'a' && c1 == 'v' && c2 == 'i' && c3 == 'f';
        proof {
            assert(lower(ext@).len() == 4);
            assert(lower(ext@)[0] == c0);
            assert(lower(ext@)[1] == c1);
            assert(lower(ext@)[2] == c2);
            assert(lower(ext@)[3] == c3);
            if r {
                assert(lower(ext@) =~= "avif"@);
            }
        }
        r
    } else {
        proof {
            assert(lower(ext@).len() == n);
        }
        false
    }
}

/// Whether a source file needs the archival-format copy before scaling.
pub fn needs_archive_copy(name: &str) -> (b: bool)
    ensures
        b == needs_archive_spec(name@),
{
    match file_ext(name) {
        Some(x) => !is_avif(x.as_str()),
        None => false,
    }
}

/// The name of the archival copy of an image: its title with the archival
/// extension.
pub open spec fn archive_name_spec(title: Seq<char>) -> Seq<char> {
    title + ".avif"@
}

pub fn archive_filename(title: &str) -> (r: String)
    ensures
        r@ == archive_name_spec(title@),
{
    let mut s = title.to_owned();
    s.append(".avif");
    s
}

/// The tag written into a scaled derivative's name.
pub open spec fn tag_suffix(sc: Scale) -> Seq<char> {
    match sc {
        Scale::Large(_) => "_large"@,
        Scale::Medium(_) => "_medium"@,
        Scale::Small(_) => "_small"@,
    }
}

/// The name of one scaled derivative: the title, the tag, the archival
/// extension.
pub open spec fn scaled_name_spec(title: Seq<char>, sc: Scale) -> Seq<char> {
    title + tag_suffix(sc) + ".avif"@
}

pub fn scaled_filename(title: &str, sc: &Scale) -> (r: String)
    ensures
        r@ == scaled_name_spec(title@, *sc),
{
    let mut s = title.to_owned();
    match sc {
        Scale::Large(_) => s.append("_large"),
        Scale::Medium(_) => s.append("_medium"),
        Scale::Small(_) => s.append("_small"),
    }
    s.append(".avif");
    proof {
        assert(s@ =~= title@ + tag_suffix(*sc) + ".avif"@);
    }
    s
}

/// The three derivative files of one image, in the triple's order: each
/// entry pairs the output name with the percentage to request.
pub fn scaled_outputs(title: &str, scaling: &Scaling) -> (outs: Vec<(String, u16)>)
    ensures
        outs@.len() == 3,
        forall|i: int|
            0 <= i < 3 ==> (#[trigger] outs@[i]).0@ == scaled_name_spec(title@, scaling@[i])
                && outs@[i].1 == scaling@[i].inner_spec(),
{
    let mut outs: Vec<(String, u16)> = Vec::new();
    let s0 = scaling[0];
    let s1 = scaling[1];
    let s2 = scaling[2];
    outs.push((scaled_filename(title, &s0), s0.inner()));
    outs.push((scaled_filename(title, &s1), s1.inner()));
    outs.push((scaled_filename(title, &s2), s2.inner()));
    outs
}

/// A fatal condition found while converting one image; each variant names
/// the image's title.
#[derive(Debug, Clone, PartialEq, Eq)]
pub enum ConvertError {
    /// The resolution probe exited unsuccessfully: the image is unreadable.
    Unreadable(Title),
    /// The probe's output did not spell a resolution record.
    ProbeFormat(Title),
    /// The copy into the archival format exited unsuccessfully.
    ArchiveCopyFailed(Title),
}

impl ConvertError {
    /// The diagnostic text of the error.
    pub open spec fn message_spec(self) -> Seq<char> {
        match self {
            ConvertError::Unreadable(t) => "Image "@ + t@ + " cannot be read"@,
            ConvertError::ProbeFormat(t) => "Image "@ + t@
                + " reported no readable resolution"@,
            ConvertError::ArchiveCopyFailed(t) => "Image "@ + t@
                + " could not be copied to the archival format"@,
        }
    }

    pub fn message(&self) -> (m: String)
        ensures
            m@ == self.message_spec(),
    {
        let mut s = String::from_str("Image ");
        match self {
            ConvertError::Unreadable(t) => {
                s.append(t.as_str());
                s.append(" cannot be read");
            },
            ConvertError::ProbeFormat(t) => {
                s.append(t.as_str());
                s.append(" reported no readable resolution");
            },
            ConvertError::ArchiveCopyFailed(t) => {
                s.append(t.as_str());
                s.append(" could not be copied to the archival format");
            },
        }
        s
    }
}

/// Everything one image's external invocations came back with: the exit of
/// the resolution probe and the bytes it printed, the exit of the archival
/// copy, and the exits of the three scaled sub-invocations in the triple's
/// order.
pub struct ImageOutcome {
    pub name: String,
    pub probe_ok: bool,
    pub probe_output: Vec<u8>,
    pub archive_ok: bool,
    pub scaled_ok: [bool; 3],
}

/// The image's title, the key its sizing is recorded under.
pub open spec fn image_title(o: ImageOutcome) -> Seq<char> {
    title_of(o.name@)
}

/// A fatal outcome: the probe failed, its output parsed as no resolution
/// record, or the archival copy failed.  The three scaled sub-invocations
/// cannot make an outcome fatal.
pub open spec fn image_fatal(o: ImageOutcome) -> bool {
    ||| !o.probe_ok
    ||| parse_probe(o.probe_output@) is None
    ||| !o.archive_ok
}

/// The sizing record a non-fatal outcome yields.
pub open spec fn image_sizing(o: ImageOutcome, s: Scaling) -> Image {
    to_image_spec(parse_probe(o.probe_output@)->Some_0, s)
}

/// The error reported for a fatal outcome: the first failed step decides
/// the variant, and the variant carries the image's title.
pub open spec fn image_error_matches(o: ImageOutcome, e: ConvertError) -> bool {
    match e {
        ConvertError::Unreadable(t) => !o.probe_ok && t@ == image_title(o),
        ConvertError::ProbeFormat(t) => o.probe_ok && parse_probe(o.probe_output@) is None
            && t@ == image_title(o),
        ConvertError::ArchiveCopyFailed(t) => o.probe_ok && parse_probe(o.probe_output@) is Some
            && !o.archive_ok && t@ == image_title(o),
    }
}

/// Judges one image's outcome: a fatal step yields its error, and otherwise
/// the image's title is paired with its sizing record.
pub fn convert_image_result(outcome: &ImageOutcome, scaling: &Scaling) -> (r: Result<
    (Title, Image),
    ConvertError,
>)
    ensures
        match r {
            Ok(p) => !image_fatal(*outcome) && p.0@ == image_title(*outcome) && p.1
                == image_sizing(*outcome, *scaling),
            Err(e) => image_fatal(*outcome) && image_error_matches(*outcome, e),
        },
{
    let title = file_title(outcome.name.as_str());
    if !outcome.probe_ok {
        return Err(ConvertError::Unreadable(title));
    }
    match crate::probe::parse_resolution(outcome.probe_output.as_slice()) {
        None => Err(ConvertError::ProbeFormat(title)),
        Some(res) => {
            if !outcome.archive_ok {
                Err(ConvertError::ArchiveCopyFailed(title))
            } else {
                Ok((title, res.to_image(scaling)))
            }
        },
    }
}

/// Whether a file name names a convertible image: it bears an extension and
/// the extension names a raster format.
pub open spec fn is_image_file(name: Seq<char>) -> bool {
    match ext_of(name) {
        Some(x) => is_image_ext(x),
        None => false,
    }
}

/// The image files among a directory's entries, in order; an entry that
/// could not be read is skipped, as is any file without a recognized
/// extension.
pub open spec fn image_entries(entries: Seq<Option<String>>) -> Seq<String>
    decreases entries.len(),
{
    if entries.len() == 0 {
        Seq::empty()
    } else {
        let rest = image_entries(entries.drop_last());
        match entries.last() {
            Some(n) => if is_image_file(n@) {
                rest.push(n)
            } else {
                rest
            },
            None => rest,
        }
    }
}

/// Filters a directory listing to the convertible images.  Unreadable
/// entries arrive as `None` and are skipped without failing the scan.
pub fn select_images(entries: &Vec<Option<String>>) -> (r: Vec<String>)
    ensures
        r@ == image_entries(entries@),
{
    let mut r: Vec<String> = Vec::new();
    let mut i: usize = 0;
    while i < entries.len()
        invariant
            i <= entries@.len(),
            r@ == image_entries(entries@.subrange(0, i as int)),
        decreases entries@.len() - i,
    {
        proof {
            let p = entries@.subrange(0, i as int);
            let q = entries@.subrange(0, i + 1);
            assert(q.drop_last() =~= p);
            assert(q.last() == entries@[i as int]);
        }
        match &entries[i] {
            Some(name) => {
                let keep = match file_ext(name.as_str()) {
                    Some(x) => is_image(x.as_str()),
                    None => false,
                };
                if keep {
                    r.push(name.clone());
                }
            },
            None => {},
        }
        i += 1;
    }
    proof {
        assert(entries@.subrange(0, entries@.len() as int) =~= entries@);
    }
    r
}

/// Whether any outcome of the run is fatal.
pub open spec fn dir_fatal(outs: Seq<ImageOutcome>) -> bool {
    exists|i: int| 0 <= i < outs.len() && image_fatal(#[trigger] outs[i])
}

/// The size map of a run without fatal outcomes: every image's sizing under
/// its title, later duplicates overwriting earlier ones.
pub open spec fn dir_map(outs: Seq<ImageOutcome>, s: Scaling) -> Map<Seq<char>, Image>
    decreases outs.len(),
{
    if outs.len() == 0 {
        Map::empty()
    } else {
        dir_map(outs.drop_last(), s).insert(
            image_title(outs.last()),
            image_sizing(outs.last(), s),
        )
    }
}

/// Folds a directory's per-image outcomes into the size map.  The first
/// fatal outcome fails the whole conversion with its error and no partial
/// map; otherwise every image is recorded, whatever its scaled
/// sub-invocations did.
pub fn convert_dir(outcomes: &Vec<ImageOutcome>, scaling: &Scaling) -> (r: Result<
    SizeMap,
    ConvertError,
>)
    ensures
        match r {
            Ok(m) => {
                &&& !dir_fatal(outcomes@)
                &&& m.wf()
                &&& m@ == dir_map(outcomes@, *scaling)
            },
            Err(e) => exists|i: int|
                {
                    &&& 0 <= i < outcomes@.len()
                    &&& image_fatal(#[trigger] outcomes@[i])
                    &&& image_error_matches(outcomes@[i], e)
                    &&& forall|j: int| 0 <= j < i ==> !image_fatal(#[trigger] outcomes@[j])
                },
        },
{
    let mut m = SizeMap::new();
    let mut i: usize = 0;
    while i < outcomes.len()
        invariant
            i <= outcomes@.len(),
            m.wf(),
            m@ == dir_map(outcomes@.subrange(0, i as int), *scaling),
            forall|j: int| 0 <= j < i ==> !image_fatal(#[trigger] outcomes@[j]),
        decreases outcomes@.len() - i,
    {
        proof {
            let p = outcomes@.subrange(0, i as int);
            let q = outcomes@.subrange(0, i + 1);
            assert(q.drop_last() =~= p);
            assert(q.last() == outcomes@[i as int]);
        }
        match convert_image_result(&outcomes[i], scaling) {
            Ok(p) => {
                let (title, image) = p;
                m.insert(title, image);
            },
            Err(e) => {
                proof {
                    assert(0 <= i < outcomes@.len() && image_fatal(outcomes@[i as int])
                        && image_error_matches(outcomes@[i as int], e) && forall|j: int|
                        0 <= j < i ==> !image_fatal(#[trigger] outcomes@[j]));
                }
                return Err(e);
            },
        }
        i += 1;
    }
    proof {
        assert(outcomes@.subrange(0, outcomes@.len() as int) =~= outcomes@);
    }
    Ok(m)
}

/// Two outcomes for the same image that differ at most in how the scaled
/// sub-invocations exited.
pub open spec fn same_but_scaled(a: ImageOutcome, b: ImageOutcome) -> bool {
    &&& a.name@ == b.name@
    &&& a.probe_ok == b.probe_ok
    &&& a.probe_output@ == b.probe_output@
    &&& a.archive_ok == b.archive_ok
}

/// Scaled-derivative failures are recoverable: two runs whose outcomes
/// differ only in the scaled sub-invocations fail alike, and when they
/// succeed they produce the same size map — every image's sizing entry is
/// recorded even where a scaled invocation failed.
pub proof fn lemma_scaled_failures_recoverable(
    a: Seq<ImageOutcome>,
    b: Seq<ImageOutcome>,
    s: Scaling,
)
    requires
        a.len() == b.len(),
        forall|i: int| 0 <= i < a.len() ==> same_but_scaled(#[trigger] a[i], b[i]),
    ensures
        dir_fatal(a) == dir_fatal(b),
        dir_map(a, s) == dir_map(b, s),
    decreases a.len(),
{
    assert forall|i: int| 0 <= i < a.len() implies image_fatal(#[trigger] a[i]) == image_fatal(
        b[i],
    ) && image_title(a[i]) == image_title(b[i]) && image_sizing(a[i], s) == image_sizing(
        b[i],
        s,
    ) by {
        assert(same_but_scaled(a[i], b[i]));
    }
    if dir_fatal(a) {
        let i = choose|i: int| 0 <= i < a.len() && image_fatal(#[trigger] a[i]);
        assert(image_fatal(b[i]));
    }
    if dir_fatal(b) {
        let i = choose|i: int| 0 <= i < b.len() && image_fatal(#[trigger] b[i]);
        assert(image_fatal(a[i]));
    }
    if a.len() > 0 {
        assert forall|i: int| 0 <= i < a.len() - 1 implies same_but_scaled(
            #[trigger] a.drop_last()[i],
            b.drop_last()[i],
        ) by {
            assert(a.drop_last()[i] == a[i]);
            assert(b.drop_last()[i] == b[i]);
        }
        lemma_scaled_failures_recoverable(a.drop_last(), b.drop_last(), s);
        assert(a[a.len() - 1] == a.last());
        assert(b[b.len() - 1] == b.last());
    }
}

/// Every image of a run is recorded in the size map under its title,
/// whatever its scaled sub-invocations did.
pub proof fn lemma_every_image_recorded(outs: Seq<ImageOutcome>, s: Scaling, i: int)
    requires
        0 <= i < outs.len(),
    ensures
        dir_map(outs, s).contains_key(image_title(outs[i])),
    decreases outs.len(),
{
    if i < outs.len() - 1 {
        assert(outs.drop_last()[i] == outs[i]);
        lemma_every_image_recorded(outs.drop_last(), s, i);
    }
}

/// A failed resolution probe is fatal for the whole directory conversion:
/// no run containing one can produce a size map.
pub proof fn lemma_probe_failure_fatal(outs: Seq<ImageOutcome>, i: int)
    requires
        0 <= i < outs.len(),
        !outs[i].probe_ok,
    ensures
        dir_fatal(outs),
{
    assert(image_fatal(outs[i]));
}

} // verus!
