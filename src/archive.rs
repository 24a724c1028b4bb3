use vstd::prelude::*;

verus! {

#[verifier::external_type_specification]
#[verifier::external_body]
#[verifier::reject_recursive_types(R)]
pub struct ExZipArchive<R>(zip::ZipArchive<R>);

#[verifier::external_type_specification]
#[verifier::external_body]
#[verifier::reject_recursive_types(T)]
pub struct ExCursor<T>(std::io::Cursor<T>);

/// A zip archive read from bytes held in memory.
pub type Archive = zip::ZipArchive<std::io::Cursor<Vec<u8>>>;

/// The members of an archive, in index order: the content of each as
/// `read_member` reads it, or `None` for a member that cannot be read.
pub uninterp spec fn archive_members(a: zip::ZipArchive<std::io::Cursor<Vec<u8>>>) -> Seq<Option<Seq<u8>>>;

/// What the bytes hold as a zip archive: its members, or `None` when the
/// bytes are not an archive that can be opened.
pub uninterp spec fn zip_contents(b: Seq<u8>) -> Option<Seq<Option<Seq<u8>>>>;

/// Relies on `zip::ZipArchive::new`: reads the central directory of the
/// archive held in memory, so the outcome depends on the bytes alone; input
/// that is not a zip archive gives its error message.
#[verifier::external_body]
pub(crate) fn open_archive(bytes: Vec<u8>) -> (r: Result<Archive, String>)
    ensures
        r is Ok <==> zip_contents(bytes@) is Some,
        r is Ok ==> archive_members(r->Ok_0) == zip_contents(bytes@)->Some_0,
{
    match zip::ZipArchive::new(std::io::Cursor::new(bytes)) {
        Ok(a) => Ok(a),
        Err(e) => Err(e.to_string()),
    }
}

/// Relies on `zip::ZipArchive::len`: the number of members.
#[verifier::external_body]
pub(crate) fn member_count(a: &Archive) -> (r: usize)
    ensures
        r as nat == archive_members(*a).len(),
{
    a.len()
}

/// Relies on `zip::ZipArchive::by_index_decrypt` with an empty password,
/// read to its end: the decompressed content of member `i`, or the error that
/// opening, decrypting or decompressing it gives. A member that is not
/// encrypted is read as `by_index` reads it, but a password failure comes back
/// as an error where `by_index` would unwrap it. Reading moves the underlying
/// cursor only; the members stay.
#[verifier::external_body]
pub(crate) fn read_member(a: &mut Archive, i: usize) -> (r: Result<Vec<u8>, String>)
    requires
        i < archive_members(*old(a)).len(),
    ensures
        archive_members(*final(a)) == archive_members(*old(a)),
        match r {
            Ok(b) => archive_members(*old(a))[i as int] == Some(b@),
            Err(_) => archive_members(*old(a))[i as int] is None,
        },
{
    match a.by_index_decrypt(i, b"") {
        Ok(Ok(mut f)) => {
            let mut out = Vec::new();
            match std::io::Read::read_to_end(&mut f, &mut out) {
                Ok(_) => Ok(out),
                Err(e) => Err(e.to_string()),
            }
        },
        Ok(Err(e)) => Err(e.to_string()),
        Err(e) => Err(e.to_string()),
    }
}

} // verus!
