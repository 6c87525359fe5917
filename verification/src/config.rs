//! Validation of external inputs and the derivation of archive-internal
//! member names.

use vstd::prelude::*;

use crate::TarError;
use crate::bytes::{copy_bytes, views_of};
use crate::walker::joined;

verus! {

use vstd::string::StrSliceExecFns;
use vstd::utf8::encode_utf8;

/// A rename of the top-level member is rejected when it begins or ends
/// with a path separator.
pub open spec fn main_name_rejected(b: Seq<u8>) -> bool {
    b.len() > 0 && (b.first() == 47 || b.last() == 47)
}

/// Validates the optional rename of the top-level member and yields its
/// bytes. A name with a leading or trailing separator is an invalid
/// external input.
pub fn validate_main_dir_name(m: &Option<String>) -> (r: Result<Option<Vec<u8>>, TarError>)
    ensures
        m is None ==> r == Ok::<Option<Vec<u8>>, TarError>(None::<Vec<u8>>),
        m matches Some(s) ==> (if main_name_rejected(encode_utf8(s@)) {
            r == Err::<Option<Vec<u8>>, TarError>(TarError::Configuration)
        } else {
            r matches Ok(o) && o matches Some(v) && v@ == encode_utf8(s@)
        }),
{
    match m {
        None => Ok(None),
        Some(s) => {
            let b = s.as_str().as_bytes_vec();
            if b.len() > 0 && (b[0] == 47 || b[b.len() - 1] == 47) {
                Err(TarError::Configuration)
            } else {
                Ok(Some(b))
            }
        },
    }
}

/// Both outputs mapped to the standard stream at once.
pub open spec fn outputs_conflict(tar: Seq<char>, hash: Option<String>) -> bool {
    tar == "-"@ && (hash matches Some(h) && h@ == "-"@)
}

/// Rejects the one contradictory sink assignment: the archive and the
/// digest listing both directed to the standard stream.
pub fn validate_output_targets(output_tar: &String, output_hash: &Option<String>) -> (r: Result<
    (),
    TarError,
>)
    ensures
        outputs_conflict(output_tar@, *output_hash) ==> r == Err::<(), TarError>(
            TarError::Configuration,
        ),
        !outputs_conflict(output_tar@, *output_hash) ==> r == Ok::<(), TarError>(()),
{
    let dash = "-".to_owned();
    let tar_is_stdout = output_tar.eq(&dash);
    let hash_is_stdout = match output_hash {
        Some(h) => h.eq(&dash),
        None => false,
    };
    if tar_is_stdout && hash_is_stdout {
        Err(TarError::Configuration)
    } else {
        Ok(())
    }
}

/// The archive-internal name of a member: the top-level name, then every
/// component after the first behind a separator, and a trailing separator
/// for a directory.
pub open spec fn tar_name_spec(main: Seq<u8>, rel: Seq<Seq<u8>>, is_dir: bool) -> Seq<u8> {
    let base = main + joined(rel.skip(1));
    if is_dir {
        base + seq![47u8]
    } else {
        base
    }
}

/// Derives a member's archive-internal name from the top-level name and
/// its relative path.
pub fn tar_name_for(main_dir_name: &Vec<u8>, relpath: &Vec<Vec<u8>>, is_dir: bool) -> (r: Vec<u8>)
    requires
        relpath@.len() >= 1,
    ensures
        r@ == tar_name_spec(main_dir_name@, views_of(relpath@), is_dir),
{
    let mut r = copy_bytes(main_dir_name);
    let n = relpath.len();
    let mut i: usize = 1;
    assert(views_of(relpath@).skip(1).take(0) =~= Seq::<Seq<u8>>::empty());
    while i < n
        invariant
            1 <= i <= n,
            n == relpath@.len(),
            r@ =~= main_dir_name@ + joined(views_of(relpath@).skip(1).take(i - 1)),
        decreases n - i,
    {
        r.push(47u8);
        let mut c = copy_bytes(&relpath[i]);
        r.append(&mut c);
        i = i + 1;
        proof {
            let pre1 = views_of(relpath@).skip(1).take(i - 1);
            assert(pre1.drop_last() =~= views_of(relpath@).skip(1).take(i - 2));
            assert(pre1.last() == views_of(relpath@)[i - 1]);
            assert(r@ =~= main_dir_name@ + joined(pre1));
        }
    }
    assert(views_of(relpath@).skip(1).take(n - 1) =~= views_of(relpath@).skip(1));
    if is_dir {
        r.push(47u8);
    }
    r
}

} // verus!
