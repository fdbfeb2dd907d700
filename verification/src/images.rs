//! Image values stored beside recipes.
//!
//! An image is stored either as the raw bytes a fetch produced or as a
//! passthrough reference URL supplied with a user-authored recipe; the store
//! treats both representations uniformly under the recipe's name.

use vstd::prelude::*;
use crate::Error;
use crate::util::clone_u8_vec;

verus! {

/// An image payload: raw bytes, or a reference URL.
pub enum ImageData {
    Bytes(Vec<u8>),
    Url(String),
}

/// The mathematical value of an [`ImageData`].
#[verifier::ext_equal]
pub enum ImageV {
    Bytes(Seq<u8>),
    Url(Seq<char>),
}

impl View for ImageData {
    type V = ImageV;

    open spec fn view(&self) -> ImageV {
        match self {
            ImageData::Bytes(b) => ImageV::Bytes(b@),
            ImageData::Url(u) => ImageV::Url(u@),
        }
    }
}

impl Clone for ImageData {
    fn clone(&self) -> (r: Self)
        ensures
            r@ == self@,
    {
        match self {
            ImageData::Bytes(b) => ImageData::Bytes(clone_u8_vec(b)),
            ImageData::Url(u) => ImageData::Url(u.clone()),
        }
    }
}

/// Stores an image under a recipe's name, overwriting any previous entry;
/// an image over the size ceiling is rejected and nothing changes.
pub fn add_image(store: &mut crate::store::EntityStore, name: String, image: ImageData) -> (r:
    Result<(), Error>)
    requires
        old(store).wf(),
    ensures
        final(store).wf(),
        final(store).users == old(store).users,
        final(store).recipes == old(store).recipes,
        final(store).counter == old(store).counter,
        crate::store::store_step(*old(store), *final(store), None),
        if crate::encoding::image_size(image@) > crate::encoding::IMAGE_MAX_BYTES {
            &&& r matches Err(e) && e is EntityTooLarge
            &&& final(store).images == old(store).images
        } else {
            &&& r matches Ok(())
            &&& final(store).images_deep() =~= old(store).images_deep().insert(name@, image@)
        },
{
    if !crate::encoding::image_fits(&image) {
        proof {
            crate::store::EntityStore::lemma_content_frame(*old(store), *store);
        }
        return Err(Error::EntityTooLarge { msg: String::from_str("Image is too large") });
    }
    let ghost iv = image@;
    store.images.insert(name, image);
    proof {
        crate::store::EntityStore::lemma_content_frame(*old(store), *store);
        assert(store.images_deep() =~= old(store).images_deep().insert(name@, iv));
        assert forall|k: Seq<char>| #[trigger] store.images_deep().contains_key(k) implies
            crate::encoding::image_size(store.images_deep()[k])
            <= crate::encoding::IMAGE_MAX_BYTES by {
            if k != name@ {
                assert(old(store).images_deep().contains_key(k));
            }
        }
    }
    Ok(())
}

/// Looks an image up by its recipe's name.
pub fn get_image(store: &crate::store::EntityStore, name: String) -> (r: Result<ImageData, Error>)
    requires
        store.wf(),
    ensures
        match r {
            Ok(img) => store.images_deep().contains_key(name@)
                && img@ == store.images_deep().index(name@),
            Err(e) => e is ImagesNotFound && !store.images_deep().contains_key(name@),
        },
{
    match store.images.get(&name) {
        Some(img) => Ok(img.clone()),
        None => Err(Error::ImagesNotFound { msg: String::from_str("No image under this name") }),
    }
}

} // verus!
