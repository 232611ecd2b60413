//! The render cache shared by all requests: renderings keyed by the
//! SHA-256 digest of their text. Each entry keeps a copy of the atlas it
//! was drawn with and is reused only with an atlas that draws alike, so a
//! cached rendering is the rendering, with the atlas asked for, of a text
//! with the same digest.

use vstd::prelude::*;
use std::sync::Arc;
use crate::font::{AtlasFont, same_font, copy_font, fonts_match};
use crate::render::{
    Png,
    PngImage,
    images,
    rendered,
    render_ready,
    render_bytes,
    is_png_file,
    law_same_font_renders_alike,
};
use crate::digest::{sha256, sha256_digest};
use crate::text::bytes_eq;

verus! {

#[verifier::external_type_specification]
#[verifier::external_body]
#[verifier::reject_recursive_types(K)]
#[verifier::reject_recursive_types(V)]
#[verifier::reject_recursive_types(S)]
pub struct ExDashMap<K, V, S>(dashmap::DashMap<K, V, S>);

/// A cached rendering: the images of a text, the text's digest and the
/// atlas they were drawn with.
pub struct CachedPngs {
    key: [u8; 32],
    font: AtlasFont,
    pngs: Vec<Png>,
    source: Ghost<Seq<u8>>,
}

impl CachedPngs {
    /// The images are the rendering with the atlas of a text whose SHA-256
    /// digest is the key.
    #[verifier::type_invariant]
    spec fn well_formed(self) -> bool {
        &&& self.font.wf()
        &&& self.key@ == sha256(self.source@)
        &&& images(self.pngs@) == rendered(self.font, self.source@)
        &&& all_png_files(self.pngs@)
    }

    /// The entry is stored under digest `key` and was drawn with an atlas
    /// that draws like `font`.
    pub closed spec fn stored_under(self, key: Seq<u8>, font: AtlasFont) -> bool {
        self.key@ == key && same_font(self.font, font)
    }

    /// The text whose rendering the entry holds.
    pub closed spec fn source_text(&self) -> Seq<u8> {
        self.source@
    }

    /// The atlas the images were drawn with.
    pub closed spec fn atlas(&self) -> AtlasFont {
        self.font
    }

    /// The images the entry holds.
    pub closed spec fn rendering(self) -> Seq<PngImage> {
        images(self.pngs@)
    }
}

/// `imgs` is the rendering with `font` of a text whose SHA-256 digest is
/// that of `text`: what a cache keyed by the digest gives for `text`.
pub open spec fn digest_rendering(imgs: Seq<PngImage>, font: AtlasFont, text: Seq<u8>) -> bool {
    exists|s: Seq<u8>| sha256(s) == sha256(text) && imgs == rendered(font, s)
}

/// When no other text has the digest of `text`, a rendering found under
/// that digest is the rendering of `text` itself.
pub proof fn law_digest_rendering_exact(imgs: Seq<PngImage>, font: AtlasFont, text: Seq<u8>)
    requires
        digest_rendering(imgs, font, text),
        forall|s: Seq<u8>| sha256(s) == sha256(text) ==> s == text,
    ensures
        imgs == rendered(font, text),
{
}

/// The render cache shared by all requests, keyed by SHA-256 of the text.
pub type RenderCache = dashmap::DashMap<[u8; 32], Arc<CachedPngs>>;

/// `DashMap::get` on the shared cache, cloning the `Arc` of the entry
/// found. Nothing is claimed of the result beyond its type: the map is
/// shared by concurrent requests and changed through `&self`, so what a
/// lookup finds depends on what other requests inserted in the meantime.
/// Every entry's own invariant (the rendering with its atlas of a text
/// with its digest) is what the callers rely on.
#[verifier::external_body]
fn cache_get(cache: &RenderCache, key: &[u8; 32]) -> (r: Option<Arc<CachedPngs>>) {
    match cache.get(key) {
        Some(entry) => Some(entry.value().clone()),
        None => None,
    }
}

/// `DashMap::insert` into the shared cache, dropping any entry it replaces.
/// Nothing is claimed: a later lookup may find this entry or one that a
/// concurrent request stored under the same key.
#[verifier::external_body]
fn cache_insert(cache: &RenderCache, key: [u8; 32], value: Arc<CachedPngs>) {
    cache.insert(key, value);
}

/// Every image is a PNG file.
pub open spec fn all_png_files(pngs: Seq<Png>) -> bool {
    forall|k: int| 0 <= k < pngs.len() ==> is_png_file(#[trigger] pngs[k].bytes@)
}

/// A copy of the images.
pub fn clone_pngs(pngs: &[Png]) -> (r: Vec<Png>)
    ensures
        images(r@) == images(pngs@),
        all_png_files(pngs@) ==> all_png_files(r@),
{
    let mut r: Vec<Png> = Vec::new();
    let mut i: usize = 0;
    while i < pngs.len()
        invariant
            i <= pngs@.len(),
            images(r@) == images(pngs@).subrange(0, i as int),
            forall|k: int| 0 <= k < i ==> #[trigger] r@[k].bytes@ == pngs@[k].bytes@,
            r@.len() == i,
        decreases pngs@.len() - i,
    {
        let p = &pngs[i];
        let bytes = crate::text::copy_range(p.bytes.as_slice(), 0, p.bytes.len());
        assert(p.bytes@.subrange(0, p.bytes@.len() as int) == p.bytes@);
        let ghost before = images(r@);
        r.push(Png { bytes, width: p.width, height: p.height });
        assert(images(r@) == before.push(p@));
        i = i + 1;
    }
    r
}

/// The entry stored for a fresh rendering of `text` with `font`.
fn new_entry(key: [u8; 32], text: &[u8], font: &AtlasFont, pngs: &Vec<Png>) -> (e: CachedPngs)
    requires
        font.wf(),
        key@ == sha256(text@),
        images(pngs@) == rendered(*font, text@),
        all_png_files(pngs@),
    ensures
        e.stored_under(key@, *font),
        e.source_text() == text@,
        e.rendering() == images(pngs@),
{
    let f = copy_font(font);
    proof {
        law_same_font_renders_alike(*font, f, text@);
    }
    CachedPngs { key, font: f, pngs: clone_pngs(pngs.as_slice()), source: Ghost(text@) }
}

/// What a lookup under digest `key` gives: a copy of the images of the
/// entry found when it is stored under `key` and was drawn with an atlas
/// like `font` (which is then the rendering with `font` of a text with
/// that digest), else `None`.
pub fn reuse_entry(found: Option<Arc<CachedPngs>>, font: &AtlasFont, key: &[u8; 32]) -> (r: Option<
    Vec<Png>,
>)
    requires
        font.wf(),
    ensures
        match found {
            Some(e) => if e.stored_under(key@, *font) {
                &&& r matches Some(p)
                &&& images(p@) == e.rendering()
                &&& images(p@) == rendered(*font, e.source_text())
                &&& sha256(e.source_text()) == key@
                &&& all_png_files(p@)
            } else {
                r is None
            },
            None => r is None,
        },
{
    match found {
        Some(entry) => {
            proof {
                use_type_invariant(&*entry);
            }
            let ghost ef: AtlasFont = entry.atlas();
            let ghost src: Seq<u8> = entry.source_text();
            if bytes_eq(entry.key.as_slice(), key.as_slice()) && fonts_match(&entry.font, font) {
                proof {
                    law_same_font_renders_alike(ef, *font, src);
                }
                Some(clone_pngs(entry.pngs.as_slice()))
            } else {
                None
            }
        },
        None => None,
    }
}

/// Renders `text` with `font` through the shared cache: an entry under the
/// text's digest drawn with an atlas like `font` is reused; otherwise the
/// text is rendered and the rendering stored under its digest.
pub fn cached_render(cache: &RenderCache, font: &AtlasFont, text: &[u8]) -> (r: Vec<Png>)
    requires
        render_ready(*font),
    ensures
        digest_rendering(images(r@), *font, text@),
        all_png_files(r@),
{
    let key = sha256_digest(text);
    let found = cache_get(cache, &key);
    let ghost f0 = found;
    match reuse_entry(found, font, &key) {
        Some(pngs) => {
            proof {
                let e = f0->0;
                assert(sha256(e.source_text()) == sha256(text@)
                    && images(pngs@) == rendered(*font, e.source_text()));
            }
            pngs
        },
        None => {
            let pngs = render_bytes(font, text);
            let entry = new_entry(key, text, font, &pngs);
            cache_insert(cache, key, Arc::new(entry));
            assert(sha256(text@) == sha256(text@) && images(pngs@) == rendered(*font, text@));
            pngs
        },
    }
}

} // verus!
