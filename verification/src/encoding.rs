//! Encoded-size accounting for stored entities.
//!
//! Every entity kind has a fixed per-entry ceiling on its encoded size, and
//! every insert validates against it; exceeding the ceiling is a hard error,
//! never a silent truncation.  The cost model of the store's encoding is
//! spelled out here: a string costs a four-byte length prefix plus one unit
//! per character, a list costs a four-byte length prefix plus its elements,
//! an index costs eight bytes, small scalar fields cost their width, and an
//! optional index and a variant tag cost one byte over their payload.

use vstd::prelude::*;
use crate::images::ImageData;
use crate::images::ImageV;
use crate::recipes::RecipeInfo;
use crate::recipes::RecipeV;
use crate::user::User;
use crate::user::UserV;

verus! {

/// Per-entry encoded-size ceiling for user records.
pub const USER_MAX_BYTES: usize = 1024;

/// Per-entry encoded-size ceiling for recipe records.
pub const RECIPE_MAX_BYTES: usize = 5 * 1024;

/// Per-entry encoded-size ceiling for image payloads.
pub const IMAGE_MAX_BYTES: usize = 4 * 1024 * 1024;

/// Encoded size of one string: length prefix plus characters.
pub open spec fn str_size(s: Seq<char>) -> nat {
    4 + s.len()
}

/// Encoded size of the first `n` strings of a list.
pub open spec fn strs_size_upto(v: Seq<Seq<char>>, n: int) -> nat
    decreases n,
{
    if n <= 0 {
        0
    } else {
        strs_size_upto(v, n - 1) + str_size(v[n - 1])
    }
}

/// Encoded size of a list of strings: length prefix plus elements.
pub open spec fn strs_size(v: Seq<Seq<char>>) -> nat {
    4 + strs_size_upto(v, v.len() as int)
}

/// Encoded size of a recipe record.
pub open spec fn recipe_size(r: RecipeV) -> nat {
    strs_size(r.instructions) + strs_size(r.ingredients) + strs_size(r.tags) + strs_size(
        r.cuisines,
    ) + 2 + 1 + 9 + 4 + 8 * r.likes.len()
}

/// Encoded size of a user record.
pub open spec fn user_size(u: UserV) -> nat {
    4 + u.id.len() + 4 + u.name.len()
}

/// Encoded size of an image payload.
pub open spec fn image_size(v: ImageV) -> nat {
    match v {
        ImageV::Bytes(b) => 5 + b.len(),
        ImageV::Url(u) => 5 + u.len(),
    }
}

proof fn lemma_strs_size_upto_monotone(v: Seq<Seq<char>>, i: int, j: int)
    requires
        0 <= i <= j,
    ensures
        strs_size_upto(v, i) <= strs_size_upto(v, j),
    decreases j,
{
    if i < j {
        lemma_strs_size_upto_monotone(v, i, j - 1);
    }
}

/// Sums the encoded size of a string list, or reports that it exceeds `cap`.
fn strs_size_capped(v: &Vec<String>, cap: usize) -> (r: Option<usize>)
    ensures
        match r {
            Some(sz) => sz == strs_size(v.deep_view()) && sz <= cap,
            None => strs_size(v.deep_view()) > cap,
        },
{
    let ghost dv = v.deep_view();
    if cap < 4 {
        return None;
    }
    let mut acc: usize = 4;
    let n = v.len();
    let mut i: usize = 0;
    proof {
        assert(dv.len() == v@.len());
    }
    while i < n
        invariant
            0 <= i <= n,
            n == dv.len(),
            dv == v.deep_view(),
            acc == 4 + strs_size_upto(dv, i as int),
            acc <= cap,
        decreases n - i,
    {
        let len = v[i].unicode_len();
        proof {
            assert(dv[i as int] == v@[i as int]@);
        }
        let wide: u128 = acc as u128 + 4 + len as u128;
        if wide > cap as u128 {
            proof {
                lemma_strs_size_upto_monotone(dv, i + 1, dv.len() as int);
                assert(strs_size(dv) >= 4 + strs_size_upto(dv, i + 1));
            }
            return None;
        }
        acc = (wide) as usize;
        proof {
            assert(acc == 4 + strs_size_upto(dv, i + 1));
        }
        i += 1;
    }
    Some(acc)
}

/// Whether a recipe record's encoded size is within the recipe ceiling.
pub fn recipe_fits(r: &RecipeInfo) -> (b: bool)
    ensures
        b == (recipe_size(r@) <= RECIPE_MAX_BYTES),
{
    let s_instructions = match strs_size_capped(&r.instructions, RECIPE_MAX_BYTES) {
        Some(s) => s,
        None => {
            return false;
        },
    };
    let s_ingredients = match strs_size_capped(&r.ingredients, RECIPE_MAX_BYTES) {
        Some(s) => s,
        None => {
            return false;
        },
    };
    let s_tags = match strs_size_capped(&r.tags, RECIPE_MAX_BYTES) {
        Some(s) => s,
        None => {
            return false;
        },
    };
    let s_cuisines = match strs_size_capped(&r.cuisines, RECIPE_MAX_BYTES) {
        Some(s) => s,
        None => {
            return false;
        },
    };
    let n_likes = r.likes.len();
    if n_likes > RECIPE_MAX_BYTES {
        return false;
    }
    let total = s_instructions + s_ingredients + s_tags + s_cuisines + 16 + 8 * n_likes;
    total <= RECIPE_MAX_BYTES
}

/// Whether a user record's encoded size is within the user ceiling.
pub fn user_fits(u: &User) -> (b: bool)
    ensures
        b == (user_size(u@) <= USER_MAX_BYTES),
{
    let id_len = u.id.bytes.len();
    let name_len = u.name.as_str().unicode_len();
    if id_len > USER_MAX_BYTES || name_len > USER_MAX_BYTES {
        return false;
    }
    8 + id_len + name_len <= USER_MAX_BYTES
}

/// Whether an image payload's encoded size is within the image ceiling.
pub fn image_fits(img: &ImageData) -> (b: bool)
    ensures
        b == (image_size(img@) <= IMAGE_MAX_BYTES),
{
    match img {
        ImageData::Bytes(b) => {
            let len = b.len();
            if len > IMAGE_MAX_BYTES {
                return false;
            }
            5 + len <= IMAGE_MAX_BYTES
        },
        ImageData::Url(u) => {
            let len = u.as_str().unicode_len();
            if len > IMAGE_MAX_BYTES {
                return false;
            }
            5 + len <= IMAGE_MAX_BYTES
        },
    }
}

} // verus!
