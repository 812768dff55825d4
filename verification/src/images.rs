//! Locating disk images by name: turning directory entries into image
//! names, and resolving a name fragment to the unique image file it
//! denotes. The directory listing itself is input — the caller reads the
//! file system and hands the entries in as plain strings.

use vstd::prelude::*;
use vstd::string::*;

use crate::text::{contains_seq, contains_str, file_stem, file_stem_of, str_eq, views_of};

verus! {

/// How many entries of `images` contain `pat`.
pub open spec fn match_count(images: Seq<Seq<char>>, pat: Seq<char>) -> nat
    decreases images.len(),
{
    if images.len() == 0 {
        0
    } else {
        match_count(images.drop_last(), pat) + if contains_seq(images.last(), pat) {
            1nat
        } else {
            0nat
        }
    }
}

/// The last entry of `images` that contains `pat`; empty when none does.
pub open spec fn last_match(images: Seq<Seq<char>>, pat: Seq<char>) -> Seq<char>
    decreases images.len(),
{
    if images.len() == 0 {
        Seq::<char>::empty()
    } else if contains_seq(images.last(), pat) {
        images.last()
    } else {
        last_match(images.drop_last(), pat)
    }
}

/// The file that `pat` denotes among `images`: defined exactly when one
/// non-empty image name contains `pat`, and then `dir/NAME.img`.
pub open spec fn image_file_of(images: Seq<Seq<char>>, pat: Seq<char>, dir: Seq<char>) -> Option<
    Seq<char>,
> {
    if match_count(images, pat) == 1 && last_match(images, pat).len() > 0 {
        Some(dir + "/"@ + last_match(images, pat) + ".img"@)
    } else {
        None
    }
}

/// Resolves `image_name` to the unique image file whose name contains it:
/// `None` when no image matches or more than one does, otherwise the path
/// `images_directory/NAME.img`. The caller checks that the file is actually
/// present.
pub fn get_file_from_image_name(image_name: &str, images: &Vec<String>, images_directory: &str)
    -> (r: Option<String>)
    ensures
        r is None <==> image_file_of(views_of(images@), image_name@, images_directory@) is None,
        r matches Some(p) ==> image_file_of(views_of(images@), image_name@, images_directory@)
            == Some(p@),
{
    let n = images.len();
    let mut num_found: usize = 0;
    let mut real_image_name = String::new();
    let mut i: usize = 0;
    while i < n
        invariant
            i <= n,
            n == images@.len(),
            num_found <= i,
            num_found == match_count(views_of(images@).take(i as int), image_name@),
            real_image_name@ == last_match(views_of(images@).take(i as int), image_name@),
        decreases n - i,
    {
        proof {
            assert(views_of(images@).take(i + 1).drop_last() =~~= views_of(images@).take(
                i as int,
            ));
            assert(views_of(images@).take(i + 1).last() == images@[i as int]@);
        }
        if contains_str(images[i].as_str(), image_name) {
            real_image_name = images[i].clone();
            num_found += 1;
        }
        i += 1;
    }
    proof {
        assert(views_of(images@).take(n as int) =~~= views_of(images@));
    }
    if num_found == 1 && real_image_name.as_str().unicode_len() > 0 {
        let mut p = String::from_str(images_directory);
        p.append("/");
        p.append(real_image_name.as_str());
        p.append(".img");
        proof {
            assert(p@ =~= images_directory@ + "/"@ + real_image_name@ + ".img"@);
        }
        Some(p)
    } else {
        None
    }
}

/// The image names of a list of directory entries: each entry's file stem,
/// in order, leaving out the `nohup` artifact.
pub open spec fn image_names_of(files: Seq<Seq<char>>) -> Seq<Seq<char>>
    decreases files.len(),
{
    if files.len() == 0 {
        Seq::<Seq<char>>::empty()
    } else {
        let prev = image_names_of(files.drop_last());
        match file_stem_of(files.last()) {
            Some(st) => if st == "nohup"@ {
                prev
            } else {
                prev.push(st)
            },
            None => prev,
        }
    }
}

/// Turns directory entries (plain file names) into image names: the file
/// stem of each, skipping entries without one and the `nohup` artifact.
pub fn image_names_from_files(files: &Vec<String>) -> (r: Vec<String>)
    ensures
        views_of(r@) == image_names_of(views_of(files@)),
{
    let n = files.len();
    let mut r: Vec<String> = Vec::new();
    let mut i: usize = 0;
    while i < n
        invariant
            i <= n,
            n == files@.len(),
            views_of(r@) =~~= image_names_of(views_of(files@).take(i as int)),
        decreases n - i,
    {
        let ghost prev = r@;
        proof {
            assert(views_of(files@).take(i + 1).drop_last() =~~= views_of(files@).take(i as int));
            assert(views_of(files@).take(i + 1).last() == files@[i as int]@);
        }
        match file_stem(files[i].as_str()) {
            Some(st) => {
                if !str_eq(st.as_str(), "nohup") {
                    r.push(st);
                    proof {
                        assert(views_of(r@) =~~= views_of(prev).push(r@[r@.len() - 1]@));
                    }
                }
            },
            None => {},
        }
        proof {
            assert(views_of(r@) =~~= image_names_of(views_of(files@).take(i + 1)));
        }
        i += 1;
    }
    proof {
        assert(views_of(files@).take(n as int) =~~= views_of(files@));
    }
    r
}

} // verus!
