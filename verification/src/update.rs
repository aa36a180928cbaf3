//! The self-update: which file to pull out of a downloaded release archive,
//! and pulling it out. The archives are read by the `zip`, `flate2` and `tar`
//! crates; which member is the binary, and what each failure is reported as,
//! is decided here.

use std::io::Read;
use vstd::prelude::*;

use crate::text::{append_seq, append_str, chars_of, string_of, vec_eq};

verus! {

/// The binary's name inside a release archive (no directory prefix: the
/// archives hold the bare binary), on Windows when `windows` holds.
pub fn binary_name(windows: bool) -> (r: &'static str)
    ensures
        windows ==> r@ == "tt-spotify-bot.exe"@,
        !windows ==> r@ == "tt-spotify-bot"@,
{
    if windows {
        "tt-spotify-bot.exe"
    } else {
        "tt-spotify-bot"
    }
}

pub open spec fn bytes_result_view(r: Result<Vec<u8>, String>) -> Result<Seq<u8>, Seq<char>> {
    match r {
        Ok(b) => Ok(b@),
        Err(e) => Err(e@),
    }
}

/// What reading member `name` of a `.zip` held in `archive` gives: its bytes,
/// or the `zip` crate's message with whether it came from looking the member
/// up by name (`true`) rather than from opening the archive or reading the
/// member (`false`).
pub uninterp spec fn zip_member_read(archive: Seq<u8>, name: Seq<char>) -> Result<
    Seq<u8>,
    (Seq<char>, bool),
>;

pub open spec fn zip_reading_view(r: Result<Vec<u8>, (String, bool)>) -> Result<
    Seq<u8>,
    (Seq<char>, bool),
> {
    match r {
        Ok(b) => Ok(b@),
        Err((e, lookup)) => Err((e@, lookup)),
    }
}

/// `zip::ZipArchive::new` over the bytes, then `ZipArchive::by_name`, then
/// `Read::read_to_end` on the member: the member's bytes, or the message
/// (`Display`) of the first of those calls that failed, marked `true` when it
/// was `by_name`. The result is named, not described.
#[verifier::external_body]
fn read_zip_member(archive: &[u8], name: &str) -> (r: Result<Vec<u8>, (String, bool)>)
    ensures
        zip_reading_view(r) == zip_member_read(archive@, name@),
{
    let mut zip = zip::ZipArchive::new(std::io::Cursor::new(archive)).map_err(|e| (e.to_string(), false))?;
    let mut member = zip.by_name(name).map_err(|e| (e.to_string(), true))?;
    let mut out = Vec::new();
    member.read_to_end(&mut out).map_err(|e| (e.to_string(), false))?;
    Ok(out)
}

/// What walking a `.tar.gz` held in `archive` gives: each member in order,
/// with its file name (the last path component, when it is UTF-8) and its
/// bytes or the message of the read that failed; then the message of the
/// failure that ended the walk early, if one did.
pub uninterp spec fn tar_gz_read(archive: Seq<u8>) -> (
    Seq<(Option<Seq<char>>, Result<Seq<u8>, Seq<char>>)>,
    Option<Seq<char>>,
);

pub open spec fn member_view(m: (Option<String>, Result<Vec<u8>, String>)) -> (
    Option<Seq<char>>,
    Result<Seq<u8>, Seq<char>>,
) {
    (crate::text::opt_chars(m.0), bytes_result_view(m.1))
}

pub open spec fn members_view(ms: Seq<(Option<String>, Result<Vec<u8>, String>)>) -> Seq<
    (Option<Seq<char>>, Result<Seq<u8>, Seq<char>>),
> {
    ms.map_values(|m: (Option<String>, Result<Vec<u8>, String>)| member_view(m))
}

/// `tar::Archive::new` over `flate2::read::GzDecoder::new` of the bytes, then
/// `Archive::entries`, each entry's `Entry::path` (its `file_name` as UTF-8)
/// and `Read::read_to_end` of each entry: the members in order, and the
/// message (`Display`) of the `entries`, entry or `path` failure that stopped
/// the walk. The result is named, not described.
#[verifier::external_body]
fn read_tar_gz(archive: &[u8]) -> (r: (Vec<(Option<String>, Result<Vec<u8>, String>)>, Option<String>))
    ensures
        (members_view(r.0@), crate::text::opt_chars(r.1)) == tar_gz_read(archive@),
{
    let mut tar = tar::Archive::new(flate2::read::GzDecoder::new(archive));
    let mut members = Vec::new();
    let walk = tar.entries().and_then(|entries| {
        for entry in entries {
            let mut m = entry?;
            let name = m.path()?.file_name().and_then(|n| n.to_str()).map(String::from);
            let mut data = Vec::new();
            let read = m.read_to_end(&mut data).map(|_| data).map_err(|e| e.to_string());
            members.push((name, read));
        }
        Ok(())
    });
    (members, walk.err().map(|e| e.to_string()))
}

/// The binary out of a walked `.tar.gz`: the first member whose file name is
/// `name` (its bytes, or why they could not be read); when none is, the
/// failure that ended the walk, or else that the archive does not hold it.
pub open spec fn tar_pick(
    members: Seq<(Option<Seq<char>>, Result<Seq<u8>, Seq<char>>)>,
    failure: Option<Seq<char>>,
    name: Seq<char>,
) -> Result<Seq<u8>, Seq<char>>
    decreases members.len(),
{
    if members.len() == 0 {
        match failure {
            Some(e) => Err(e),
            None => Err(name + " not found in archive"@),
        }
    } else if members[0].0 == Some(name) {
        members[0].1
    } else {
        tar_pick(members.drop_first(), failure, name)
    }
}

/// The binary out of what reading a `.zip` gave: a failure to find the
/// member by name is reported with the name in front.
pub open spec fn zip_pick(read: Result<Seq<u8>, (Seq<char>, bool)>, name: Seq<char>) -> Result<
    Seq<u8>,
    Seq<char>,
> {
    match read {
        Ok(b) => Ok(b),
        Err((e, lookup)) => if lookup {
            Err(name + ": "@ + e)
        } else {
            Err(e)
        },
    }
}

/// What `extract_binary` gives for an archive.
pub open spec fn extracted(archive: Seq<u8>, is_zip: bool, name: Seq<char>) -> Result<
    Seq<u8>,
    Seq<char>,
> {
    if is_zip {
        zip_pick(zip_member_read(archive, name), name)
    } else {
        let (members, failure) = tar_gz_read(archive);
        tar_pick(members, failure, name)
    }
}

/// Pick the binary out of a walked `.tar.gz` (see `tar_pick`).
pub fn select_member(
    members: Vec<(Option<String>, Result<Vec<u8>, String>)>,
    failure: Option<String>,
    name: &str,
) -> (r: Result<Vec<u8>, String>)
    ensures
        bytes_result_view(r) == tar_pick(members_view(members@), crate::text::opt_chars(failure), name@),
{
    let mut items = members;
    let ghost all = members_view(items@);
    let wanted = chars_of(name);
    let mut i: usize = 0;
    proof {
        assert(all.subrange(0, all.len() as int) =~= all);
    }
    while i < items.len()
        invariant
            i <= items.len(),
            wanted@ == name@,
            members_view(items@) == all,
            members_view(members@) == all,
            tar_pick(all, crate::text::opt_chars(failure), name@) == tar_pick(
                all.subrange(i as int, all.len() as int),
                crate::text::opt_chars(failure),
                name@,
            ),
        decreases items.len() - i,
    {
        let ghost rest = all.subrange(i as int, all.len() as int);
        proof {
            assert(rest[0] == member_view(items@[i as int]));
            assert(rest.drop_first() =~= all.subrange(i + 1, all.len() as int));
        }
        let hit = match &items[i].0 {
            Some(n) => vec_eq(&chars_of(n.as_str()), &wanted),
            None => false,
        };
        if hit {
            let ghost before = items@;
            let m = items.remove(i);
            proof {
                assert(m == before[i as int]);
                assert(rest[0] == member_view(m));
                assert(rest[0].0 == Some(name@));
                assert(rest.len() > 0);
                assert(tar_pick(rest, crate::text::opt_chars(failure), name@) == rest[0].1);
                assert(member_view(m).1 == bytes_result_view(m.1));
            }
            return m.1;
        }
        i = i + 1;
    }
    match failure {
        Some(e) => Err(e),
        None => {
            let mut v = wanted;
            append_str(&mut v, " not found in archive");
            Err(string_of(&v))
        },
    }
}

/// Report what reading a `.zip` gave (see `zip_pick`).
pub fn zip_outcome(read: Result<Vec<u8>, (String, bool)>, name: &str) -> (r: Result<Vec<u8>, String>)
    ensures
        bytes_result_view(r) == zip_pick(zip_reading_view(read), name@),
{
    match read {
        Ok(b) => Ok(b),
        Err((e, lookup)) => {
            if lookup {
                let mut v = chars_of(name);
                append_str(&mut v, ": ");
                append_seq(&mut v, &chars_of(e.as_str()));
                Err(string_of(&v))
            } else {
                Err(e)
            }
        },
    }
}

/// Extract `binary_name` from a release archive held in memory: a `.zip`
/// when `is_zip` (the Windows assets), a `.tar.gz` otherwise.
pub fn extract_binary(archive: &[u8], is_zip: bool, binary_name: &str) -> (r: Result<Vec<u8>, String>)
    ensures
        bytes_result_view(r) == extracted(archive@, is_zip, binary_name@),
{
    if is_zip {
        zip_outcome(read_zip_member(archive, binary_name), binary_name)
    } else {
        let (members, failure) = read_tar_gz(archive);
        select_member(members, failure, binary_name)
    }
}

} // verus!
