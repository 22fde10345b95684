//! Mutations as JSON payloads.

use crate::json::{
    max_depth, models, parse, parsed, to_bytes, encoded, Json, JsonModel, JsonNumber,
    JsonNumberModel, Object,
};
use crate::metadata::model::Op;
use crate::metadata::{BlobChecksum, MetaOp};
use crate::page::texts;
use crate::text::{same, Text};
use vstd::prelude::*;

verus! {

broadcast use vstd::string::group_string_axioms;

/// The text that `String::from_utf8_lossy` reads from bytes.
pub uninterp spec fn lossy_text(bytes: Seq<u8>) -> Text;

/// `String::from_utf8_lossy`. Claimed: the text depends on the bytes alone, and
/// valid UTF-8 is read as it stands.
#[verifier::external_body]
fn lossy_call(bytes: &[u8]) -> (r: String)
    ensures
        r@ == lossy_text(bytes@),
        vstd::utf8::valid_utf8(bytes@) ==> vstd::utf8::encode_utf8(r@) == bytes@,
{
    String::from_utf8_lossy(bytes).into_owned()
}

/// A list of strings as a document.
pub open spec fn text_list(s: Seq<Text>) -> JsonModel {
    JsonModel::List(Seq::new(s.len(), |i: int| JsonModel::Text(s[i])))
}

/// A number as a document.
pub open spec fn natural(n: u64) -> JsonModel {
    JsonModel::Number(JsonNumberModel::Natural(n))
}

/// The fields that every put-manifest payload has.
pub open spec fn manifest_fields(repo: Text, digest: Text, media_type: Text, tag: Option<Text>) -> Map<
    Text,
    JsonModel,
> {
    Map::empty().insert("op"@, JsonModel::Text("put_manifest"@)).insert(
        "repo"@,
        JsonModel::Text(repo),
    ).insert("digest"@, JsonModel::Text(digest)).insert(
        "media_type"@,
        JsonModel::Text(media_type),
    ).insert(
        "tag"@,
        match tag {
            Some(t) => JsonModel::Text(t),
            None => JsonModel::Null,
        },
    )
}

/// A mutation's document.
pub open spec fn op_json(op: Op) -> JsonModel {
    match op {
        Op::PutManifest { repo, digest, media_type, tag, references, referrer } => {
            let base = manifest_fields(repo, digest, media_type, tag);
            let refs = if references.len() > 0 {
                base.insert("references"@, text_list(references))
            } else {
                base
            };
            JsonModel::Object(
                match referrer {
                    Some(r) => refs.insert("subject"@, JsonModel::Text(r.0)).insert(
                        "descriptor"@,
                        JsonModel::Text(lossy_text(r.1)),
                    ),
                    None => refs,
                },
            )
        },
        Op::DeleteManifest { repo, digest } => JsonModel::Object(
            Map::empty().insert("op"@, JsonModel::Text("delete_manifest"@)).insert(
                "repo"@,
                JsonModel::Text(repo),
            ).insert("digest"@, JsonModel::Text(digest)),
        ),
        Op::PutReferrer { repo, subject, referrer, descriptor } => JsonModel::Object(
            Map::empty().insert("op"@, JsonModel::Text("put_referrer"@)).insert(
                "repo"@,
                JsonModel::Text(repo),
            ).insert("subject"@, JsonModel::Text(subject)).insert(
                "referrer"@,
                JsonModel::Text(referrer),
            ).insert("descriptor"@, JsonModel::Text(lossy_text(descriptor))),
        ),
        Op::PutBackrefs { repo, manifest, blobs } => JsonModel::Object(
            Map::empty().insert("op"@, JsonModel::Text("put_backrefs"@)).insert(
                "repo"@,
                JsonModel::Text(repo),
            ).insert("manifest"@, JsonModel::Text(manifest)).insert("blobs"@, text_list(blobs)),
        ),
        Op::PutChecksum { repo, digest, checksum } => JsonModel::Object(
            Map::empty().insert("op"@, JsonModel::Text("put_checksum"@)).insert(
                "repo"@,
                JsonModel::Text(repo),
            ).insert("digest"@, JsonModel::Text(digest)).insert(
                "crc32c"@,
                natural(checksum.crc32c as u64),
            ).insert("size"@, natural(checksum.size)),
        ),
        Op::DeleteBlob { repo, digest } => JsonModel::Object(
            Map::empty().insert("op"@, JsonModel::Text("delete_blob"@)).insert(
                "repo"@,
                JsonModel::Text(repo),
            ).insert("digest"@, JsonModel::Text(digest)),
        ),
    }
}

/// The strings of a list field; what is no string is left out, and a field that
/// is no list has none.
pub open spec fn string_items(v: Seq<JsonModel>) -> Seq<Text>
    decreases v.len(),
{
    if v.len() == 0 {
        Seq::empty()
    } else {
        let init = string_items(v.drop_last());
        match v.last().text() {
            Some(t) => init.push(t),
            None => init,
        }
    }
}

/// The strings of the list field `name`.
pub open spec fn strings_field(v: JsonModel, name: Text) -> Seq<Text> {
    match v.field(name) {
        Some(f) => match f.list() {
            Some(items) => string_items(items),
            None => Seq::empty(),
        },
        None => Seq::empty(),
    }
}

/// The number in field `name`.
pub open spec fn natural_field(v: JsonModel, name: Text) -> Option<u64> {
    match v.field(name) {
        Some(f) => f.natural(),
        None => None,
    }
}

/// The mutation that a document spells.
pub open spec fn json_op(v: JsonModel) -> Option<Op> {
    let repo = v.text_field("repo"@);
    let digest = v.text_field("digest"@);
    match v.text_field("op"@) {
        None => None,
        Some(kind) => if kind == "put_manifest"@ {
            let media_type = v.text_field("media_type"@);
            let subject = v.text_field("subject"@);
            let descriptor = v.text_field("descriptor"@);
            if repo is Some && digest is Some && media_type is Some {
                Some(
                    Op::PutManifest {
                        repo: repo->0,
                        digest: digest->0,
                        media_type: media_type->0,
                        tag: v.text_field("tag"@),
                        references: strings_field(v, "references"@),
                        referrer: if subject is Some && descriptor is Some {
                            Some((subject->0, vstd::utf8::encode_utf8(descriptor->0)))
                        } else {
                            None
                        },
                    },
                )
            } else {
                None
            }
        } else if kind == "delete_manifest"@ {
            if repo is Some && digest is Some {
                Some(Op::DeleteManifest { repo: repo->0, digest: digest->0 })
            } else {
                None
            }
        } else if kind == "put_referrer"@ {
            let subject = v.text_field("subject"@);
            let referrer = v.text_field("referrer"@);
            let descriptor = v.text_field("descriptor"@);
            if repo is Some && subject is Some && referrer is Some && descriptor is Some {
                Some(
                    Op::PutReferrer {
                        repo: repo->0,
                        subject: subject->0,
                        referrer: referrer->0,
                        descriptor: vstd::utf8::encode_utf8(descriptor->0),
                    },
                )
            } else {
                None
            }
        } else if kind == "put_backrefs"@ {
            let manifest = v.text_field("manifest"@);
            if repo is Some && manifest is Some {
                Some(
                    Op::PutBackrefs {
                        repo: repo->0,
                        manifest: manifest->0,
                        blobs: strings_field(v, "blobs"@),
                    },
                )
            } else {
                None
            }
        } else if kind == "put_checksum"@ {
            let crc = natural_field(v, "crc32c"@);
            let size = natural_field(v, "size"@);
            if repo is Some && digest is Some && crc is Some && crc->0 <= u32::MAX && size is Some {
                Some(
                    Op::PutChecksum {
                        repo: repo->0,
                        digest: digest->0,
                        checksum: BlobChecksum { crc32c: crc->0 as u32, size: size->0 },
                    },
                )
            } else {
                None
            }
        } else if kind == "delete_blob"@ {
            if repo is Some && digest is Some {
                Some(Op::DeleteBlob { repo: repo->0, digest: digest->0 })
            } else {
                None
            }
        } else {
            None
        },
    }
}

/// The mutation that a payload spells.
pub open spec fn op_of(payload: Seq<u8>) -> Option<Op> {
    match parsed(payload) {
        Some(v) => json_op(v),
        None => None,
    }
}

/// The payload of a mutation.
pub open spec fn op_payload(op: Op) -> Seq<u8> {
    encoded(op_json(op))
}

/// A list of strings as a document.
fn list_of(v: &Vec<String>) -> (r: Json)
    ensures
        r.model() == text_list(texts(v@)),
{
    let mut out: Vec<Json> = Vec::new();
    let mut i: usize = 0;
    while i < v.len()
        invariant
            i <= v@.len(),
            out@.len() == i,
            forall|j: int| 0 <= j < i ==> (#[trigger] out@[j]).model() == JsonModel::Text(v@[j]@),
        decreases v@.len() - i,
    {
        out.push(Json::Text(v[i].clone()));
        i += 1;
    }
    proof {
        Json::lemma_list(out);
        assert(models(out@) =~= text_list(texts(v@))->List_0);
    }
    Json::List(out)
}

/// A string as a document.
fn text_of(s: &str) -> (r: Json)
    ensures
        r.model() == JsonModel::Text(s@),
{
    Json::Text(s.to_owned())
}

/// A mutation's document.
fn op_document(op: &MetaOp) -> (r: Json)
    ensures
        r.model() == op_json(op.model()),
        r.model().plain(max_depth()),
        utf8_op(op.model()) ==> textual(op.model()),
{
    let mut o = Object::new();
    match op {
        MetaOp::PutManifest { repo, digest, media_type, tag, references, referrer } => {
            o.insert("op", text_of("put_manifest"));
            o.insert("repo", text_of(repo));
            o.insert("digest", text_of(digest));
            o.insert("media_type", text_of(media_type));
            o.insert(
                "tag",
                match tag {
                    Some(t) => text_of(t),
                    None => Json::Null,
                },
            );
            if references.len() > 0 {
                o.insert("references", list_of(references));
            }
            if let Some((subject, descriptor)) = referrer {
                o.insert("subject", text_of(subject));
                o.insert("descriptor", Json::Text(lossy_call(descriptor.as_slice())));
            }
        },
        MetaOp::DeleteManifest { repo, digest } => {
            o.insert("op", text_of("delete_manifest"));
            o.insert("repo", text_of(repo));
            o.insert("digest", text_of(digest));
        },
        MetaOp::PutReferrer { repo, subject, referrer, descriptor } => {
            o.insert("op", text_of("put_referrer"));
            o.insert("repo", text_of(repo));
            o.insert("subject", text_of(subject));
            o.insert("referrer", text_of(referrer));
            o.insert("descriptor", Json::Text(lossy_call(descriptor.as_slice())));
        },
        MetaOp::PutBackrefs { repo, manifest, blobs } => {
            o.insert("op", text_of("put_backrefs"));
            o.insert("repo", text_of(repo));
            o.insert("manifest", text_of(manifest));
            o.insert("blobs", list_of(blobs));
        },
        MetaOp::PutChecksum { repo, digest, crc32c, size } => {
            o.insert("op", text_of("put_checksum"));
            o.insert("repo", text_of(repo));
            o.insert("digest", text_of(digest));
            o.insert("crc32c", Json::Number(JsonNumber::Natural(*crc32c as u64)));
            o.insert("size", Json::Number(JsonNumber::Natural(*size)));
        },
        MetaOp::DeleteBlob { repo, digest } => {
            o.insert("op", text_of("delete_blob"));
            o.insert("repo", text_of(repo));
            o.insert("digest", text_of(digest));
        },
    }
    let r = Json::Object(o);
    proof {
        lemma_op_plain(op.model());
    }
    r
}

/// A mutation's document is within what can be read back.
proof fn lemma_op_plain(op: Op)
    ensures
        op_json(op).plain(max_depth()),
{
    let m = op_json(op)->Object_0;
    assert forall|k: Text| #![trigger m[k]] m.contains_key(k) implies m[k].plain(126) by {
        reveal_with_fuel(JsonModel::plain, 2);
    }
}

/// Serializes a mutation.
pub fn serialize_op(op: &MetaOp) -> (r: Vec<u8>)
    ensures
        r@ == op_payload(op.model()),
        parsed(r@) == Some(op_json(op.model())),
        utf8_op(op.model()) ==> textual(op.model()),
{
    to_bytes(&op_document(op))
}

/// The text of field `name`, owned.
fn owned_field(v: &Json, name: &str) -> (r: Option<String>)
    ensures
        r matches Some(s) ==> v.model().text_field(name@) == Some(s@),
        r is None ==> v.model().text_field(name@) is None,
{
    match v.text_field(name) {
        Some(s) => Some(s.to_owned()),
        None => None,
    }
}

/// The strings of the list field `name`.
fn owned_strings(v: &Json, name: &str) -> (r: Vec<String>)
    ensures
        texts(r@) == strings_field(v.model(), name@),
{
    let mut out: Vec<String> = Vec::new();
    assert(texts(out@) =~= Seq::<Text>::empty());
    if let Some(f) = v.get(name) {
        if let Some(items) = f.as_list() {
            let ghost all = models(items@);
            let mut i: usize = 0;
            assert(all.take(0) =~= Seq::<JsonModel>::empty());
            while i < items.len()
                invariant
                    all == models(items@),
                    i <= items@.len(),
                    texts(out@) == string_items(all.take(i as int)),
                decreases items@.len() - i,
            {
                let ghost next = all.take(i + 1);
                let ghost out0 = out@;
                proof {
                    assert(next.drop_last() =~= all.take(i as int));
                    assert(next.last() == items@[i as int].model());
                }
                if let Some(s) = items[i].as_str() {
                    out.push(s.to_owned());
                    assert(texts(out@) =~= texts(out0).push(s@));
                }
                i += 1;
            }
            assert(all.take(all.len() as int) =~= all);
        }
    }
    out
}

/// The number in field `name`.
fn number_field(v: &Json, name: &str) -> (r: Option<u64>)
    ensures
        r == natural_field(v.model(), name@),
{
    match v.get(name) {
        Some(f) => f.as_u64(),
        None => None,
    }
}

/// The bytes of a string.
fn bytes_of(s: &String) -> (r: Vec<u8>)
    ensures
        r@ == vstd::utf8::encode_utf8(s@),
{
    vstd::slice::slice_to_vec(s.as_str().as_bytes())
}

/// What `deserialize_op` returns for a document.
pub open spec fn is_op(r: Option<MetaOp>, v: Option<Op>) -> bool {
    match (r, v) {
        (Some(op), Some(m)) => op.model() == m,
        (None, None) => true,
        _ => false,
    }
}

/// Reads a mutation from its document; nothing where a required field is
/// missing or of another type, or the kind is not known.
pub fn op_from(v: &Json) -> (r: Option<MetaOp>)
    ensures
        is_op(r, json_op(v.model())),
{
    let kind = match v.text_field("op") {
        Some(k) => k,
        None => {
            return None;
        },
    };
    if same(kind, "put_manifest") {
        match (owned_field(v, "repo"), owned_field(v, "digest"), owned_field(v, "media_type")) {
            (Some(repo), Some(digest), Some(media_type)) => {
                let tag = owned_field(v, "tag");
                let references = owned_strings(v, "references");
                let referrer = match (owned_field(v, "subject"), owned_field(v, "descriptor")) {
                    (Some(subject), Some(descriptor)) => Some((subject, bytes_of(&descriptor))),
                    _ => None,
                };
                Some(MetaOp::PutManifest { repo, digest, media_type, tag, references, referrer })
            },
            _ => None,
        }
    } else if same(kind, "delete_manifest") {
        match (owned_field(v, "repo"), owned_field(v, "digest")) {
            (Some(repo), Some(digest)) => Some(MetaOp::DeleteManifest { repo, digest }),
            _ => None,
        }
    } else if same(kind, "put_referrer") {
        match (
            owned_field(v, "repo"),
            owned_field(v, "subject"),
            owned_field(v, "referrer"),
            owned_field(v, "descriptor"),
        ) {
            (Some(repo), Some(subject), Some(referrer), Some(descriptor)) => {
                let descriptor = bytes_of(&descriptor);
                Some(MetaOp::PutReferrer { repo, subject, referrer, descriptor })
            },
            _ => None,
        }
    } else if same(kind, "put_backrefs") {
        match (owned_field(v, "repo"), owned_field(v, "manifest")) {
            (Some(repo), Some(manifest)) => {
                let blobs = owned_strings(v, "blobs");
                Some(MetaOp::PutBackrefs { repo, manifest, blobs })
            },
            _ => None,
        }
    } else if same(kind, "put_checksum") {
        match (
            owned_field(v, "repo"),
            owned_field(v, "digest"),
            number_field(v, "crc32c"),
            number_field(v, "size"),
        ) {
            (Some(repo), Some(digest), Some(crc), Some(size)) => {
                if crc <= 0xFFFF_FFFF {
                    Some(MetaOp::PutChecksum { repo, digest, crc32c: crc as u32, size })
                } else {
                    None
                }
            },
            _ => None,
        }
    } else if same(kind, "delete_blob") {
        match (owned_field(v, "repo"), owned_field(v, "digest")) {
            (Some(repo), Some(digest)) => Some(MetaOp::DeleteBlob { repo, digest }),
            _ => None,
        }
    } else {
        None
    }
}

/// Reads a mutation from its payload.
pub fn deserialize_op(payload: &[u8]) -> (r: Option<MetaOp>)
    ensures
        is_op(r, op_of(payload@)),
{
    match parse(payload) {
        Some(v) => op_from(&v),
        None => None,
    }
}

/// The descriptor bytes of a mutation, if any, are the UTF-8 of the text they
/// are read as.
pub open spec fn textual(op: Op) -> bool {
    match op {
        Op::PutManifest { referrer, .. } => referrer matches Some(r) ==> is_text(r.1),
        Op::PutReferrer { descriptor, .. } => is_text(descriptor),
        _ => true,
    }
}

/// The descriptor bytes of a mutation, if any, are valid UTF-8.
pub open spec fn utf8_op(op: Op) -> bool {
    match op {
        Op::PutManifest { referrer, .. } => referrer matches Some(r) ==> vstd::utf8::valid_utf8(
            r.1,
        ),
        Op::PutReferrer { descriptor, .. } => vstd::utf8::valid_utf8(descriptor),
        _ => true,
    }
}

/// The bytes are the UTF-8 of the text they are read as.
pub open spec fn is_text(bytes: Seq<u8>) -> bool {
    vstd::utf8::encode_utf8(lossy_text(bytes)) == bytes
}

/// A list of strings read back gives the strings.
proof fn lemma_text_list(s: Seq<Text>)
    ensures
        string_items(text_list(s)->List_0) == s,
    decreases s.len(),
{
    let items = text_list(s)->List_0;
    if s.len() == 0 {
        assert(s =~= Seq::empty());
    } else {
        lemma_text_list(s.drop_last());
        assert(items.drop_last() =~= text_list(s.drop_last())->List_0);
        assert(s.drop_last().push(s.last()) =~= s);
    }
}

/// The field names and kinds are pairwise different texts.
pub proof fn lemma_names()
    ensures
        "op"@.len() == 2,
        "repo"@.len() == 4,
        "digest"@.len() == 6,
        "media_type"@.len() == 10,
        "tag"@.len() == 3,
        "references"@ != "descriptor"@,
        "references"@.len() == 10,
        "references"@ != "media_type"@,
        "descriptor"@ != "media_type"@,
        "descriptor"@.len() == 10,
        "subject"@.len() == 7,
        "referrer"@.len() == 8,
        "manifest"@.len() == 8,
        "referrer"@ != "manifest"@,
        "blobs"@.len() == 5,
        "crc32c"@.len() == 6,
        "crc32c"@ != "digest"@,
        "size"@.len() == 4,
        "size"@ != "repo"@,
        "put_manifest"@.len() == 12,
        "delete_manifest"@.len() == 15,
        "put_referrer"@.len() == 12,
        "put_backrefs"@.len() == 12,
        "put_checksum"@.len() == 12,
        "delete_blob"@.len() == 11,
        "put_manifest"@ != "put_referrer"@,
        "put_manifest"@ != "put_backrefs"@,
        "put_manifest"@ != "put_checksum"@,
        "put_referrer"@ != "put_backrefs"@,
        "put_referrer"@ != "put_checksum"@,
        "put_backrefs"@ != "put_checksum"@,
        "gen"@.len() == 3,
{
    reveal_strlit("op");
    reveal_strlit("repo");
    reveal_strlit("digest");
    reveal_strlit("media_type");
    reveal_strlit("tag");
    reveal_strlit("references");
    reveal_strlit("descriptor");
    reveal_strlit("subject");
    reveal_strlit("referrer");
    reveal_strlit("manifest");
    reveal_strlit("blobs");
    reveal_strlit("crc32c");
    reveal_strlit("size");
    reveal_strlit("put_manifest");
    reveal_strlit("delete_manifest");
    reveal_strlit("put_referrer");
    reveal_strlit("put_backrefs");
    reveal_strlit("put_checksum");
    reveal_strlit("delete_blob");
    reveal_strlit("gen");
    assert("references"@[0] == 'r' && "descriptor"@[0] == 'd' && "media_type"@[0] == 'm');
    assert("referrer"@[0] == 'r' && "manifest"@[0] == 'm');
    assert("crc32c"@[0] == 'c' && "digest"@[0] == 'd');
    assert("size"@[0] == 's' && "repo"@[0] == 'r');
    assert("put_manifest"@[4] == 'm' && "put_referrer"@[4] == 'r' && "put_backrefs"@[4] == 'b'
        && "put_checksum"@[4] == 'c');
}

/// A mutation read back from its document is the same mutation, where its
/// descriptor is text.
pub proof fn op_document_roundtrip(op: Op)
    requires
        textual(op),
    ensures
        json_op(op_json(op)) == Some(op),
{
    lemma_names();
    match op {
        Op::PutManifest { repo, digest, media_type, tag, references, referrer } => {
            lemma_text_list(references);
            if references.len() == 0 {
                assert(references =~= Seq::empty());
            }
        },
        Op::PutBackrefs { repo, manifest, blobs } => {
            lemma_text_list(blobs);
        },
        _ => {},
    }
}

} // verus!
