//! Plugins and their resources: the validation and packing rules.
//!
//! A plugin arrives as a parsed manifest — a slug, optional title and
//! authorship, client scripts, media files and block types. The rules
//! here are the pure core of plugin loading: which media names are
//! allowed, how local resource paths become global ones, how block types
//! are checked against the media they reference, and how the plugins'
//! files are packed into the resources archive with one scheme per
//! plugin. Reading the files from disk and running plugin code stay
//! outside.

use vstd::prelude::*;

use crate::archive::ResourcesArchive;
use crate::clients::clone_string;
use crate::hashing::calculate_hash;
use crate::messages::ResourceScheme;
use crate::strutil::str_eq;

verus! {

broadcast use vstd::string::to_string_from_display_ensures_for_str;

/// One block type a plugin declares: a slug and the media resource its
/// faces or model come from.
pub struct BlockType {
    pub slug: String,
    pub media: String,
}

/// One plugin's contents after its manifest and files were read: the
/// slug, a title (the slug where none was given), and the script, media
/// and block lists.
pub struct PluginContainer {
    pub slug: String,
    pub title: String,
    pub scripts: Vec<(String, String)>,
    pub media: Vec<(String, Vec<u8>)>,
    pub blocks: Vec<BlockType>,
}

impl PluginContainer {
    pub fn get_slug(&self) -> (r: &String)
        ensures
            r == self.slug,
    {
        &self.slug
    }

    pub fn get_title(&self) -> (r: &String)
        ensures
            r == self.title,
    {
        &self.title
    }

    pub fn get_scripts_count(&self) -> (r: usize)
        ensures
            r == self.scripts@.len(),
    {
        self.scripts.len()
    }

    pub fn get_media_count(&self) -> (r: usize)
        ensures
            r == self.media@.len(),
    {
        self.media.len()
    }

    /// Whether this plugin carries a media file under the given name.
    pub fn has_media(&self, name: &String) -> (r: bool)
        ensures
            r == exists|i: int|
                0 <= i < self.media@.len() && (#[trigger] self.media@[i]).0@ == name@,
    {
        let n = self.media.len();
        let mut i: usize = 0;
        while i < n
            invariant
                n == self.media@.len(),
                i <= n,
                forall|j: int| 0 <= j < i ==> (#[trigger] self.media@[j]).0@ != name@,
            decreases n - i,
        {
            if str_eq(self.media[i].0.as_str(), name.as_str()) {
                return true;
            }
            i = i + 1;
        }
        false
    }

    /// A plugin-local resource path under this plugin's namespace:
    /// `slug://path`.
    pub fn local_to_global_path(&self, path: &String) -> (r: String)
        ensures
            r@ == self.slug@ + "://"@ + path@,
    {
        let mut out = clone_string(&self.slug);
        out.append("://");
        out.append(path.as_str());
        out
    }

    /// Whether block `b` names a media file this plugin carries.
    pub open spec fn block_covered(self, b: int) -> bool {
        exists|i: int|
            0 <= i < self.media@.len() && (#[trigger] self.media@[i]).0@ == self.blocks@[b].media@
    }

    /// Every block type must name a media file the plugin carries; the
    /// first that does not is reported.
    pub fn validate_blocks(&self) -> (r: Result<(), String>)
        ensures
            r is Ok <==> forall|b: int| 0 <= b < self.blocks@.len() ==> self.block_covered(b),
    {
        let n = self.blocks.len();
        let mut b: usize = 0;
        while b < n
            invariant
                n == self.blocks@.len(),
                b <= n,
                forall|k: int| 0 <= k < b ==> self.block_covered(k),
            decreases n - b,
        {
            if !self.has_media(&self.blocks[b].media) {
                proof {
                    assert(!self.block_covered(b as int));
                }
                return Err(clone_string(&self.blocks[b].media));
            }
            b = b + 1;
        }
        Ok(())
    }
}

/// Whether a media file name carries an allowed extension.
pub fn is_media_allowed(media: &str) -> (r: bool)
    ensures
        r == (ends_with(media@, ".png"@) || ends_with(media@, ".glb"@)),
{
    str_ends_with(media, ".png") || str_ends_with(media, ".glb")
}

/// Whether one character sequence ends with another.
pub open spec fn ends_with(s: Seq<char>, suffix: Seq<char>) -> bool {
    s.len() >= suffix.len() && s.subrange(s.len() - suffix.len(), s.len() as int) == suffix
}

/// Whether a string ends with a suffix.
pub fn str_ends_with(s: &str, suffix: &str) -> (r: bool)
    ensures
        r == ends_with(s@, suffix@),
{
    let n = s.unicode_len();
    let m = suffix.unicode_len();
    if n < m {
        return false;
    }
    let mut i: usize = 0;
    while i < m
        invariant
            n == s@.len(),
            m == suffix@.len(),
            m <= n,
            i <= m,
            forall|j: int| 0 <= j < i ==> s@[n - m + j] == suffix@[j],
        decreases m - i,
    {
        if s.get_char(n - m + i) != suffix.get_char(i) {
            proof {
                assert(s@[n - m + i] != suffix@[i as int]);
                if ends_with(s@, suffix@) {
                    assert(s@.subrange(n - m, n as int)[i as int] == suffix@[i as int]);
                }
            }
            return false;
        }
        i = i + 1;
    }
    proof {
        assert(s@.subrange(n - m, n as int) =~= suffix@);
    }
    true
}

/// Packs a set of loaded plugins for streaming: every script and media
/// file joins the archive under its content hash, each plugin records
/// its hash-to-slug scheme, and duplicate plugin slugs are refused
/// before anything is packed.
pub fn pack_plugins(plugins: &Vec<PluginContainer>, archive: &mut ResourcesArchive) -> (r: Result<
    (),
    String,
>)
    requires
        old(archive).wf(),
    ensures
        final(archive).wf(),
        r is Ok ==> final(archive).spec_schemes().len() == old(archive).spec_schemes().len()
            + plugins@.len(),
        r is Ok ==> forall|i: int, j: int|
            0 <= i < j < plugins@.len() ==> (#[trigger] plugins@[i]).slug@ != (
            #[trigger] plugins@[j]).slug@,
{
    let n = plugins.len();
    let mut i: usize = 0;
    while i < n
        invariant
            n == plugins@.len(),
            i <= n,
            *archive == *old(archive),
            old(archive).wf(),
            forall|a: int, b: int|
                0 <= a < b < i ==> (#[trigger] plugins@[a]).slug@ != (#[trigger] plugins@[b]).slug@,
        decreases n - i,
    {
        let mut j: usize = 0;
        while j < i
            invariant
                i < n == plugins@.len(),
                j <= i,
                *archive == *old(archive),
                old(archive).wf(),
                forall|b: int| 0 <= b < j ==> (#[trigger] plugins@[b]).slug@ != plugins@[i as int].slug@,
            decreases i - j,
        {
            if str_eq(plugins[j].slug.as_str(), plugins[i].slug.as_str()) {
                return Err(clone_string(&plugins[i].slug));
            }
            j = j + 1;
        }
        i = i + 1;
    }
    let ghost schemes0 = archive.spec_schemes();
    let mut p: usize = 0;
    while p < n
        invariant
            n == plugins@.len(),
            p <= n,
            archive.wf(),
            archive.spec_schemes().len() == schemes0.len() + p,
        decreases n - p,
    {
        let plugin = &plugins[p];
        let mut scheme = ResourceScheme {
            slug: clone_string(&plugin.slug),
            scripts: Vec::new(),
            media: Vec::new(),
        };
        let sn = plugin.scripts.len();
        let mut s: usize = 0;
        while s < sn
            invariant
                *plugin == plugins@[p as int],
                sn == plugins@[p as int].scripts@.len(),
                p < plugins@.len(),
                s <= sn,
                archive.wf(),
                archive.spec_schemes().len() == schemes0.len() + p,
            decreases sn - s,
        {
            let bytes = plugin.scripts[s].1.as_str().as_bytes_vec();
            let hash = calculate_hash(&bytes);
            let hash_name = u64_to_string(hash);
            scheme.scripts.push((clone_string(&hash_name), clone_string(&plugin.scripts[s].0)));
            archive.add_entry(hash_name, bytes);
            s = s + 1;
        }
        let mn = plugin.media.len();
        let mut m: usize = 0;
        while m < mn
            invariant
                *plugin == plugins@[p as int],
                mn == plugins@[p as int].media@.len(),
                p < plugins@.len(),
                m <= mn,
                archive.wf(),
                archive.spec_schemes().len() == schemes0.len() + p,
            decreases mn - m,
        {
            let bytes = copy_bytes(&plugin.media[m].1);
            let hash = calculate_hash(&bytes);
            let hash_name = u64_to_string(hash);
            scheme.media.push((clone_string(&hash_name), clone_string(&plugin.media[m].0)));
            archive.add_entry(hash_name, bytes);
            m = m + 1;
        }
        archive.add_resource_scheme(scheme);
        p = p + 1;
    }
    Ok(())
}

/// The decimal digits of a 64-bit value, as a string.
pub fn u64_to_string(n: u64) -> (r: String)
    ensures
        r@.len() > 0,
{
    let mut digits: Vec<u8> = Vec::new();
    digits.push((n % 10) as u8);
    let mut rest: u64 = n / 10;
    while rest > 0
        invariant
            digits@.len() > 0,
        decreases rest,
    {
        digits.push((rest % 10) as u8);
        rest = rest / 10;
    }
    let mut out = String::new();
    let mut i: usize = digits.len();
    while i > 0
        invariant
            i <= digits@.len(),
            out@.len() >= digits@.len() - i,
        decreases i,
    {
        i = i - 1;
        let piece: &str = match digits[i] {
            0 => "0",
            1 => "1",
            2 => "2",
            3 => "3",
            4 => "4",
            5 => "5",
            6 => "6",
            7 => "7",
            8 => "8",
            _ => "9",
        };
        proof {
            reveal_strlit("0");
            reveal_strlit("1");
            reveal_strlit("2");
            reveal_strlit("3");
            reveal_strlit("4");
            reveal_strlit("5");
            reveal_strlit("6");
            reveal_strlit("7");
            reveal_strlit("8");
            reveal_strlit("9");
        }
        out.append(piece);
    }
    proof {
        assert(digits@.len() > 0);
    }
    out
}

/// A copy of a byte vector.
fn copy_bytes(bytes: &Vec<u8>) -> (r: Vec<u8>)
    ensures
        r@ == bytes@,
{
    vstd::slice::slice_to_vec(bytes.as_slice())
}

} // verus!
