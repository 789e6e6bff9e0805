//! The upload protocol: a multipart request's fields, consumed one at a
//! time and in arrival order, each either skipped (no declared filename),
//! stored under its validated name, or aborting the whole request.

use vstd::prelude::*;

use crate::auth::CredentialGate;
use crate::path_check::{path_is_valid, valid_segment};
use crate::service::RequestError;
use crate::storage::StorageModel;

verus! {

/// One part of a multipart request: a client-declared filename, absent for
/// non-file metadata parts, and the part's bytes.
pub struct UploadField {
    pub file_name: Option<String>,
    pub data: Vec<u8>,
}

/// Whether every named field of the request carries a valid filename, so
/// that ingestion runs to completion.
pub open spec fn ingest_ok(fields: Seq<UploadField>) -> bool
    decreases fields.len(),
{
    if fields.len() == 0 {
        true
    } else {
        match fields[0].file_name {
            Option::None => ingest_ok(fields.drop_first()),
            Option::Some(n) => valid_segment(n@) && ingest_ok(fields.drop_first()),
        }
    }
}

/// The names a completed ingestion reports, one per stored field, in the
/// order the fields arrived. Fields from the first invalid one on contribute
/// nothing.
pub open spec fn ingest_names(fields: Seq<UploadField>) -> Seq<Seq<char>>
    decreases fields.len(),
{
    if fields.len() == 0 {
        Seq::empty()
    } else {
        match fields[0].file_name {
            Option::None => ingest_names(fields.drop_first()),
            Option::Some(n) => if valid_segment(n@) {
                seq![n@].add(ingest_names(fields.drop_first()))
            } else {
                Seq::empty()
            },
        }
    }
}

/// The storage contents after ingesting `fields` into storage holding `m`:
/// each stored field overwrites its name, and the first invalid field aborts
/// the rest while files already written stay written.
pub open spec fn ingest_map(m: Map<Seq<char>, Seq<u8>>, fields: Seq<UploadField>) -> Map<
    Seq<char>,
    Seq<u8>,
>
    decreases fields.len(),
{
    if fields.len() == 0 {
        m
    } else {
        match fields[0].file_name {
            Option::None => ingest_map(m, fields.drop_first()),
            Option::Some(n) => if valid_segment(n@) {
                ingest_map(m.insert(n@, fields[0].data@), fields.drop_first())
            } else {
                m
            },
        }
    }
}

/// Copies a field's bytes into storage-owned memory.
fn copy_bytes(src: &Vec<u8>) -> (r: Vec<u8>)
    ensures
        r@ == src@,
{
    vstd::slice::slice_to_vec(src.as_slice())
}

/// Consumes the fields in arrival order. A field with no declared filename
/// is silently skipped; a field whose name fails validation aborts the whole
/// request with a client error, leaving files written for earlier fields in
/// place; a valid field fully replaces the file of that name. On success the
/// stored names are reported in processing order.
pub fn ingest(storage: &mut StorageModel, fields: &Vec<UploadField>) -> (r: Result<
    Vec<String>,
    RequestError,
>)
    requires
        old(storage).wf(),
    ensures
        final(storage).wf(),
        final(storage)@ == ingest_map(old(storage)@, fields@),
        match r {
            Result::Ok(names) => ingest_ok(fields@) && names.deep_view() == ingest_names(
                fields@,
            ),
            Result::Err(e) => e == RequestError::InvalidName && !ingest_ok(fields@),
        },
{
    let ghost all = fields@;
    let mut names: Vec<String> = Vec::new();
    let mut i: usize = 0;
    proof {
        assert(all.skip(0) =~= all);
        assert(names.deep_view() =~= Seq::<Seq<char>>::empty());
        assert(Seq::<Seq<char>>::empty().add(ingest_names(all)) =~= ingest_names(all));
    }
    while i < fields.len()
        invariant
            storage.wf(),
            i <= all.len(),
            all == fields@,
            ingest_map(old(storage)@, all) == ingest_map(storage@, all.skip(i as int)),
            ingest_ok(all) == ingest_ok(all.skip(i as int)),
            ingest_names(all) == names.deep_view().add(ingest_names(all.skip(i as int))),
        decreases all.len() - i,
    {
        let ghost t = all.skip(i as int);
        proof {
            assert(t[0] == all[i as int]);
            assert(t.drop_first() =~= all.skip(i as int + 1));
        }
        match &fields[i].file_name {
            Option::None => {},
            Option::Some(n) => {
                if !path_is_valid(n.as_str()) {
                    proof {
                        assert(!ingest_ok(t));
                        assert(ingest_map(storage@, t) == storage@);
                    }
                    return Result::Err(RequestError::InvalidName);
                }
                let data = copy_bytes(&fields[i].data);
                let ghost before = names.deep_view();
                storage.store(n.as_str(), data);
                names.push(n.clone());
                proof {
                    assert(names.deep_view() =~= before.push(n@));
                    assert(ingest_names(t) == seq![n@].add(ingest_names(t.drop_first())));
                    assert(before.push(n@).add(ingest_names(t.drop_first())) =~= before.add(
                        seq![n@].add(ingest_names(t.drop_first())),
                    ));
                }
            },
        }
        i += 1;
    }
    proof {
        assert(all.skip(all.len() as int) =~= Seq::<UploadField>::empty());
        assert(names.deep_view().add(Seq::<Seq<char>>::empty()) =~= names.deep_view());
    }
    Result::Ok(names)
}

/// The authenticated variant: the credential gate runs before any field is
/// read, and an unauthorized caller changes nothing.
pub fn ingest_authorized(
    gate: &CredentialGate,
    presented: &str,
    storage: &mut StorageModel,
    fields: &Vec<UploadField>,
) -> (r: Result<Vec<String>, RequestError>)
    requires
        old(storage).wf(),
    ensures
        final(storage).wf(),
        !gate.accepts(presented@) ==> (r matches Result::Err(e) && e
            == RequestError::Unauthorized && final(storage)@ == old(storage)@),
        gate.accepts(presented@) ==> final(storage)@ == ingest_map(old(storage)@, fields@)
            && match r {
            Result::Ok(names) => ingest_ok(fields@) && names.deep_view() == ingest_names(
                fields@,
            ),
            Result::Err(e) => e == RequestError::InvalidName && !ingest_ok(fields@),
        },
{
    if !gate.is_authorized(presented) {
        return Result::Err(RequestError::Unauthorized);
    }
    ingest(storage, fields)
}

/// Law: a field with no declared filename never creates a file and never
/// contributes a name to the result, wherever it stands in the request.
pub proof fn lemma_unnamed_field_ignored(
    m: Map<Seq<char>, Seq<u8>>,
    f: UploadField,
    rest: Seq<UploadField>,
)
    requires
        f.file_name is None,
    ensures
        ingest_map(m, seq![f].add(rest)) == ingest_map(m, rest),
        ingest_names(seq![f].add(rest)) == ingest_names(rest),
        ingest_ok(seq![f].add(rest)) == ingest_ok(rest),
{
    let s = seq![f].add(rest);
    assert(s[0] == f);
    assert(s.drop_first() =~= rest);
}

/// Law: the first field carrying an invalid name aborts the whole request.
/// Ingestion fails, no field at or after the invalid one is written, and
/// files stored for earlier fields in the same request stay written.
pub proof fn lemma_abort_on_first_invalid(
    m: Map<Seq<char>, Seq<u8>>,
    fields: Seq<UploadField>,
    i: int,
)
    requires
        0 <= i < fields.len(),
        fields[i].file_name matches Some(n) && !valid_segment(n@),
        forall|j: int|
            0 <= j < i ==> (fields[j].file_name is Some ==> valid_segment(
                fields[j].file_name->0@,
            )),
    ensures
        !ingest_ok(fields),
        ingest_map(m, fields) == ingest_map(m, fields.take(i)),
    decreases i,
{
    if i == 0 {
        assert(ingest_map(m, fields.take(0)) == m);
    } else {
        let rest = fields.drop_first();
        assert(rest[i - 1] == fields[i]);
        assert forall|j: int|
            0 <= j < i - 1 && rest[j].file_name is Some implies valid_segment(
            rest[j].file_name->0@,
        ) by {
            assert(rest[j] == fields[j + 1]);
        }
        match fields[0].file_name {
            Option::None => {
                lemma_abort_on_first_invalid(m, rest, i - 1);
                assert(fields.take(i).drop_first() =~= rest.take(i - 1));
                assert(fields.take(i)[0] == fields[0]);
            },
            Option::Some(n) => {
                let m1 = m.insert(n@, fields[0].data@);
                lemma_abort_on_first_invalid(m1, rest, i - 1);
                assert(fields.take(i).drop_first() =~= rest.take(i - 1));
                assert(fields.take(i)[0] == fields[0]);
            },
        }
    }
}

/// Law: re-uploading a name fully replaces the stored content; retrieval
/// after the second upload sees the second payload only.
pub proof fn lemma_reupload_overwrites(
    m: Map<Seq<char>, Seq<u8>>,
    name: Seq<char>,
    first: Seq<u8>,
    second: Seq<u8>,
)
    ensures
        m.insert(name, first).insert(name, second) == m.insert(name, second),
        m.insert(name, first).insert(name, second)[name] == second,
{
    assert(m.insert(name, first).insert(name, second) =~= m.insert(name, second));
}

/// Law: a stored file is retrievable under its name, with exactly the bytes
/// that were uploaded.
pub proof fn lemma_stored_file_retrievable(
    m: Map<Seq<char>, Seq<u8>>,
    name: Seq<char>,
    data: Seq<u8>,
)
    ensures
        m.insert(name, data).dom().contains(name),
        m.insert(name, data)[name] == data,
{
}

} // verus!
