//! Opening images, and listing those of a session.

use vstd::prelude::*;
use vstd::string::*;
use crate::server::error::AppError;
use crate::server::order::{is_order, lemma_places_cover, order, text_le, Key};
use crate::server::session::{can_open, is_taken_error, ImageMeta, V2SessionState};
use crate::text::{copy_opt, opt_text};

verus! {

/// Which file to open.
#[derive(Debug)]
pub struct OpenParams {
    pub path: String,
    /// The header unit to open; none for the first image.
    pub hdu: Option<usize>,
    /// The name to open it under; none for a minted one.
    pub name: Option<String>,
}

/// Which header unit of the open file to go to.
#[derive(Debug)]
pub struct HduParams {
    pub hdu: usize,
    /// The name to open it under; none for a minted one.
    pub name: Option<String>,
}

/// What loading an image found.
#[derive(Debug)]
pub struct Loaded {
    pub rows: usize,
    pub cols: usize,
    pub wcs_present: bool,
    pub extname: Option<String>,
}

/// What the answer to opening an image says of it.
#[derive(Debug)]
pub struct Opened {
    pub image_ref: String,
    pub active_ref: String,
    /// Columns, then rows.
    pub dims: (usize, usize),
    pub hdu: Option<usize>,
    pub extname: Option<String>,
    pub wcs_present: bool,
}

/// What is recorded of an image that was loaded.
pub open spec fn is_meta(
    m: ImageMeta,
    image_ref: Seq<char>,
    source: Option<String>,
    hdu: Option<usize>,
    loaded: Loaded,
) -> bool {
    &&& m.image_ref@ == image_ref
    &&& m.source == source
    &&& m.hdu == hdu
    &&& m.width == loaded.cols
    &&& m.height == loaded.rows
    &&& m.wcs_present == loaded.wcs_present
    &&& m.extname == loaded.extname
}

/// Whether an answer says what is known of an image.
pub open spec fn is_opened(r: Opened, m: ImageMeta) -> bool {
    &&& r.image_ref@ == m.image_ref@
    &&& r.active_ref@ == m.image_ref@
    &&& r.dims == (m.width, m.height)
    &&& r.hdu == m.hdu
    &&& r.extname == m.extname
    &&& r.wcs_present == m.wcs_present
}

/// Records a loaded image under its name, makes it the one in use, and says what is known of it.
/// Where the name is taken by an image of the same file and unit, that image stays as it is, becomes
/// the one in use, and is what the answer tells of; where it is of another one, all stays as it is.
pub fn register_and_respond(
    state: &mut V2SessionState,
    image_ref: String,
    source: Option<String>,
    hdu: Option<usize>,
    loaded: &Loaded,
) -> (r: Result<Opened, AppError>)
    requires
        old(state).wf(),
    ensures
        final(state).wf(),
        final(state).minted() == old(state).minted(),
        r is Ok <==> can_open(old(state).meta(), image_ref@, opt_text(source), hdu),
        match r {
            Err(e) => {
                &&& is_taken_error(e, image_ref@)
                &&& final(state).meta() == old(state).meta()
                &&& final(state).active() == old(state).active()
            },
            Ok(r) => {
                &&& opt_text(final(state).active()) == Some(image_ref@)
                &&& final(state).meta().dom() == old(state).meta().dom().insert(image_ref@)
                &&& final(state).meta()[image_ref@].image_ref@ == image_ref@
                &&& is_opened(r, final(state).meta()[image_ref@])
                &&& if old(state).meta().dom().contains(image_ref@) {
                    final(state).meta() == old(state).meta()
                } else {
                    is_meta(final(state).meta()[image_ref@], image_ref@, source, hdu, *loaded)
                }
            },
        },
        forall|k: Seq<char>| #[trigger]
            old(state).meta().dom().contains(k) ==> final(state).meta().dom().contains(k)
                && final(state).meta()[k] == old(state).meta()[k],
{
    let meta = ImageMeta {
        image_ref: image_ref.clone(),
        source,
        hdu,
        width: loaded.cols,
        height: loaded.rows,
        wcs_present: loaded.wcs_present,
        extname: copy_opt(&loaded.extname),
    };
    let told = meta.clone();
    match state.open(meta) {
        Err(e) => Err(e),
        Ok(_) => {
            assert(state.meta().dom() =~= old(state).meta().dom().insert(image_ref@));
            proof {
                state.images_have_their_names();
            }
            let known = match state.get(image_ref.as_str()) {
                Some(m) => m,
                None => &told,
            };
            Ok(
                Opened {
                    image_ref: image_ref.clone(),
                    active_ref: image_ref,
                    dims: (known.width, known.height),
                    hdu: known.hdu,
                    extname: copy_opt(&known.extname),
                    wcs_present: known.wcs_present,
                },
            )
        },
    }
}

/// Whether `images` holds each registered image once, sorted by name.
pub open spec fn is_image_list(images: Seq<ImageMeta>, meta: Map<Seq<char>, ImageMeta>) -> bool {
    &&& forall|i: int|
        0 <= i < images.len() ==> {
            &&& meta.dom().contains((#[trigger] images[i]).image_ref@)
            &&& meta[images[i].image_ref@] == images[i]
        }
    &&& forall|k: Seq<char>| #[trigger]
        meta.dom().contains(k) ==> exists|i: int|
            0 <= i < images.len() && (#[trigger] images[i]).image_ref@ == k
    &&& forall|i: int, j: int|
        0 <= i < j < images.len() ==> {
            &&& text_le((#[trigger] images[i]).image_ref@, (#[trigger] images[j]).image_ref@)
            &&& images[i].image_ref@ != images[j].image_ref@
        }
}

/// The images of a session, sorted by name.
pub fn list_images(state: &V2SessionState) -> (images: Vec<ImageMeta>)
    requires
        state.wf(),
    ensures
        is_image_list(images@, state.meta()),
{
    let all = state.all();
    let mut keys: Vec<Key> = Vec::new();
    let mut i: usize = 0;
    while i < all.len()
        invariant
            i <= all@.len(),
            keys@.len() == i,
            forall|j: int|
                0 <= j < i ==> (#[trigger] keys@[j]).rank == 0 && keys@[j].name
                    == all@[j].image_ref,
        decreases all.len() - i,
    {
        keys.push(Key { rank: 0, name: all[i].image_ref.clone() });
        i = i + 1;
    }
    let places = order(&keys);
    let mut images: Vec<ImageMeta> = Vec::new();
    let mut k: usize = 0;
    while k < places.len()
        invariant
            k <= places@.len(),
            is_order(places@, keys@),
            keys@.len() == all@.len(),
            images@.len() == k,
            forall|j: int| 0 <= j < k ==> #[trigger] images@[j] == all@[places@[j] as int],
        decreases places.len() - k,
    {
        images.push(all[places[k]].clone());
        k = k + 1;
    }
    proof {
        assert forall|name: Seq<char>| #[trigger] state.meta().dom().contains(name) implies exists|
            i: int,
        |
            0 <= i < images@.len() && (#[trigger] images@[i]).image_ref@ == name by {
            let at = choose|at: int|
                0 <= at < all@.len() && (#[trigger] all@[at]).image_ref@ == name;
            let i = lemma_places_cover(places@, all@.len() as int, at);
            assert(images@[i].image_ref@ == name);
        }
        assert forall|i: int, j: int| 0 <= i < j < images@.len() implies {
            &&& text_le((#[trigger] images@[i]).image_ref@, (#[trigger] images@[j]).image_ref@)
            &&& images@[i].image_ref@ != images@[j].image_ref@
        } by {
            let a = places@[i] as int;
            let b = places@[j] as int;
            assert(keys@[a].name == all@[a].image_ref && keys@[b].name == all@[b].image_ref);
            assert(images@[i] == all@[a] && images@[j] == all@[b]);
            if a < b {
                assert(all@[a].image_ref@ != all@[b].image_ref@);
            } else {
                assert(all@[b].image_ref@ != all@[a].image_ref@);
            }
        }
    }
    images
}

} // verus!
