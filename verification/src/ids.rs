//! Identity computation.
//!
//! Every identifier is a BLAKE3 digest over a domain-tagged canonical tuple: the fields joined
//! with the ASCII unit separator `\x1f`, with the kind string first. No field we produce holds
//! the separator, so the encoding is injective and two different tuples cannot collide by
//! concatenation.
use vstd::prelude::*;
use vstd::utf8::{encode_utf8, encode_utf8_decode_utf8};
use crate::error::NerveError;
use crate::order::{key_views, lemma_key_views_push, stable_order, stably_sorted};
use crate::text::{
    chars_of, decimal, extend_chars, extend_str, push_decimal, string_of, all_digits,
    digits_value, is_digit, lemma_decimal_reads_back, lemma_decimal_injective,
};
use crate::vocab::{EndpointKind, EntityKind, Relation, UnresolvedCategory};

verus! {

/// ASCII unit separator, the canonical tuple field delimiter.
pub const UNIT_SEPARATOR: u8 = 0x1f;

/// Number of hex characters retained in a kind-prefixed entity id (128 bits).
pub const ENTITY_ID_HEX_LEN: usize = 32;

/// The lowercase hexadecimal rendering of the BLAKE3 hash of `bytes`.
pub uninterp spec fn blake3_hex_of(bytes: Seq<u8>) -> Seq<char>;

/// A lowercase hexadecimal digit.
pub open spec fn is_lower_hex(c: char) -> bool {
    ('0' <= c && c <= '9') || ('a' <= c && c <= 'f')
}

/// Calls `blake3::hash` and renders the hash with `Hash::to_hex`. The result is the named hash
/// of the bytes; the crate's source renders the 32 hash bytes as 64 characters drawn from
/// `0123456789abcdef`.
#[verifier::external_body]
fn blake3_hex(bytes: &[u8]) -> (hex: String)
    ensures
        hex@ == blake3_hex_of(bytes@),
        hex@.len() == 64,
        forall|i: int| 0 <= i < hex@.len() ==> is_lower_hex(#[trigger] hex@[i]),
{
    blake3::hash(bytes).to_hex().to_string()
}

/// The separator as a character.
pub open spec fn separator() -> char {
    '\u{1f}'
}

/// `s` does not hold the field separator.
pub open spec fn separator_free(s: Seq<char>) -> bool {
    forall|i: int| 0 <= i < s.len() ==> #[trigger] s[i] != separator()
}

/// The canonical tuple: the fields joined by the separator.
pub open spec fn tuple_text(fields: Seq<Seq<char>>) -> Seq<char>
    decreases fields.len(),
{
    if fields.len() == 0 {
        Seq::empty()
    } else if fields.len() == 1 {
        fields[0]
    } else {
        tuple_text(fields.drop_last()) + seq![separator()] + fields.last()
    }
}

/// The bytes that are hashed for a tuple.
pub open spec fn tuple_bytes(fields: Seq<Seq<char>>) -> Seq<u8> {
    encode_utf8(tuple_text(fields))
}

/// The full digest of a tuple.
pub open spec fn digest_of(fields: Seq<Seq<char>>) -> Seq<char> {
    blake3_hex_of(tuple_bytes(fields))
}

/// A kind-prefixed entity id: the kind's tag, `_`, and the first 32 digest characters.
pub open spec fn entity_id_of(kind: EntityKind, fields: Seq<Seq<char>>) -> Seq<char> {
    kind.prefix_of() + seq!['_'] + digest_of(fields).take(32)
}

/// The shape of every entity id of `kind`: its tag, `_`, then 32 lowercase hex characters.
pub open spec fn entity_id_shape(kind: EntityKind, id: Seq<char>) -> bool {
    &&& id.len() == kind.prefix_of().len() + 33
    &&& id.take(kind.prefix_of().len() as int) == kind.prefix_of()
    &&& id[kind.prefix_of().len() as int] == '_'
    &&& forall|i: int|
        kind.prefix_of().len() + 1 <= i < id.len() ==> is_lower_hex(#[trigger] id[i])
}

/// The views of a list of string slices.
pub open spec fn str_views(fields: Seq<&str>) -> Seq<Seq<char>> {
    fields.map_values(|f: &str| f@)
}

/// A character below `0x20`.
pub open spec fn is_control(c: char) -> bool {
    (c as u32) < 0x20
}

/// `text` without its characters below `0x20`.
pub open spec fn stripped(text: Seq<char>) -> Seq<char>
    decreases text.len(),
{
    if text.len() == 0 {
        Seq::empty()
    } else if is_control(text.last()) {
        stripped(text.drop_last())
    } else {
        stripped(text.drop_last()).push(text.last())
    }
}

/// The tuple of a section.
pub open spec fn section_fields(
    project_id: Seq<char>,
    rel_path: Seq<char>,
    heading_path: Seq<Seq<char>>,
    ordinal: nat,
) -> Seq<Seq<char>> {
    seq![EntityKind::Section.name_of(), project_id, rel_path]
        + heading_path.map_values(|h: Seq<char>| stripped(h))
        + seq![decimal(ordinal)]
}

/// The tuple of an endpoint.
pub open spec fn endpoint_fields(
    project_id: Seq<char>,
    module_rel_path: Seq<char>,
    endpoint_kind: EndpointKind,
    method: Seq<char>,
    path: Seq<char>,
) -> Seq<Seq<char>> {
    seq![
        EntityKind::Endpoint.name_of(),
        project_id,
        module_rel_path,
        endpoint_kind.name_of(),
        stripped(method),
        stripped(path),
    ]
}

/// The tuple of a symbol.
pub open spec fn symbol_fields(
    kind: EntityKind,
    project_id: Seq<char>,
    module_rel_path: Seq<char>,
    scope_path: Seq<char>,
    name: Seq<char>,
    disambiguator: nat,
) -> Seq<Seq<char>> {
    seq![kind.name_of(), project_id, module_rel_path, scope_path, name, decimal(disambiguator)]
}

/// The text hashed for a content Merkle root: `path \x1f hash \n` for each pair, in order.
pub open spec fn merkle_text(pairs: Seq<(Seq<char>, Seq<char>)>) -> Seq<char>
    decreases pairs.len(),
{
    if pairs.len() == 0 {
        Seq::empty()
    } else {
        merkle_text(pairs.drop_last()) + pairs.last().0 + seq![separator()] + pairs.last().1
            + seq!['\n']
    }
}

/// The views of a list of string pairs.
pub open spec fn pair_views(pairs: Seq<(String, String)>) -> Seq<(Seq<char>, Seq<char>)> {
    pairs.map_values(|p: (String, String)| (p.0@, p.1@))
}

/// The canonical tuple of `fields`.
fn tuple_chars(fields: &Vec<Vec<char>>) -> (out: Vec<char>)
    ensures
        out@ == tuple_text(key_views(fields@)),
{
    let mut out: Vec<char> = Vec::new();
    let mut i: usize = 0;
    while i < fields.len()
        invariant
            i <= fields.len(),
            out@ == tuple_text(key_views(fields@).take(i as int)),
        decreases fields.len() - i,
    {
        let ghost before = key_views(fields@).take(i as int);
        if i > 0 {
            out.push('\u{1f}');
        }
        extend_chars(&mut out, fields[i].as_slice());
        proof {
            let after = key_views(fields@).take(i + 1);
            assert(after.drop_last() =~= before);
            assert(after.last() == fields@[i as int]@);
            if i == 0 {
                assert(after.len() == 1);
                assert(out@ =~= tuple_text(after));
            } else {
                assert(out@ =~= tuple_text(after));
            }
        }
        i = i + 1;
    }
    assert(key_views(fields@).take(fields.len() as int) =~= key_views(fields@));
    out
}

/// The digest of a tuple whose fields are given as characters.
fn digest_chars(fields: &Vec<Vec<char>>) -> (digest: String)
    ensures
        digest@ == digest_of(key_views(fields@)),
        digest@.len() == 64,
        forall|i: int| 0 <= i < digest@.len() ==> is_lower_hex(#[trigger] digest@[i]),
{
    let text = tuple_chars(fields);
    let joined = string_of(text.as_slice());
    let bytes = joined.as_str().as_bytes();
    blake3_hex(bytes)
}

/// BLAKE3 over the canonical tuple encoding, returned as full 64-character hex.
pub fn canonical_digest(fields: &[&str]) -> (digest: String)
    ensures
        digest@ == digest_of(str_views(fields@)),
        digest@.len() == 64,
        forall|i: int| 0 <= i < digest@.len() ==> is_lower_hex(#[trigger] digest@[i]),
{
    let mut rows: Vec<Vec<char>> = Vec::new();
    let mut i: usize = 0;
    while i < fields.len()
        invariant
            i <= fields.len(),
            key_views(rows@) == str_views(fields@).take(i as int),
        decreases fields.len() - i,
    {
        let row = chars_of(fields[i]);
        proof {
            lemma_key_views_push(rows@, row);
            assert(str_views(fields@).take(i + 1) =~= str_views(fields@).take(i as int).push(
                fields@[i as int]@,
            ));
        }
        rows.push(row);
        i = i + 1;
    }
    assert(str_views(fields@).take(fields.len() as int) =~= str_views(fields@));
    digest_chars(&rows)
}

/// BLAKE3 of arbitrary bytes as full hex. Used for file content hashes.
pub fn content_hash(bytes: &[u8]) -> (hash: String)
    ensures
        hash@ == blake3_hex_of(bytes@),
        hash@.len() == 64,
        forall|i: int| 0 <= i < hash@.len() ==> is_lower_hex(#[trigger] hash@[i]),
{
    blake3_hex(bytes)
}

/// The kind-prefixed id of the tuple `fields`.
fn prefixed(kind: EntityKind, fields: &Vec<Vec<char>>) -> (id: String)
    ensures
        id@ == entity_id_of(kind, key_views(fields@)),
        entity_id_shape(kind, id@),
{
    let digest = digest_chars(fields);
    let hex = chars_of(digest.as_str());
    let mut out: Vec<char> = Vec::new();
    extend_str(&mut out, kind.prefix());
    out.push('_');
    let mut i: usize = 0;
    while i < ENTITY_ID_HEX_LEN
        invariant
            i <= 32,
            hex@ == digest@,
            hex@.len() == 64,
            forall|j: int| 0 <= j < hex@.len() ==> is_lower_hex(#[trigger] hex@[j]),
            out@ == kind.prefix_of() + seq!['_'] + hex@.take(i as int),
        decreases 32 - i,
    {
        out.push(hex[i]);
        assert(hex@.take(i as int).push(hex@[i as int]) =~= hex@.take(i + 1));
        i = i + 1;
    }
    proof {
        let p = kind.prefix_of();
        assert(out@.take(p.len() as int) =~= p);
        assert forall|j: int| p.len() + 1 <= j < out@.len() implies is_lower_hex(#[trigger] out@[j]) by {
            assert(out@[j] == hex@[j - p.len() - 1]);
        }
    }
    string_of(out.as_slice())
}

/// The characters of a string slice, as a tuple field.
fn field(s: &str) -> (out: Vec<char>)
    ensures
        out@ == s@,
{
    chars_of(s)
}

/// The decimal rendering of a number, as a tuple field.
fn number_field(n: u64) -> (out: Vec<char>)
    ensures
        out@ == decimal(n as nat),
{
    let mut out: Vec<char> = Vec::new();
    push_decimal(&mut out, n);
    assert(out@ =~= decimal(n as nat));
    out
}

/// `("repository", project_id)`
pub fn repository_id(project_id: &str) -> (id: String)
    ensures
        id@ == entity_id_of(EntityKind::Repository, seq![EntityKind::Repository.name_of(), project_id@]),
        entity_id_shape(EntityKind::Repository, id@),
{
    let fields = vec![field(EntityKind::Repository.as_str()), field(project_id)];
    assert(key_views(fields@) =~= seq![EntityKind::Repository.name_of(), project_id@]);
    prefixed(EntityKind::Repository, &fields)
}

/// The tuple `(kind, project_id, rel_path)` shared by the path-addressed kinds.
fn path_tuple_id(kind: EntityKind, project_id: &str, rel_path: &str) -> (id: String)
    ensures
        id@ == entity_id_of(kind, seq![kind.name_of(), project_id@, rel_path@]),
        entity_id_shape(kind, id@),
{
    let fields = vec![field(kind.as_str()), field(project_id), field(rel_path)];
    assert(key_views(fields@) =~= seq![kind.name_of(), project_id@, rel_path@]);
    prefixed(kind, &fields)
}

/// `("directory", project_id, rel_path)`
pub fn directory_id(project_id: &str, rel_path: &str) -> (id: String)
    ensures
        id@ == entity_id_of(EntityKind::Directory, seq![EntityKind::Directory.name_of(), project_id@, rel_path@]),
        entity_id_shape(EntityKind::Directory, id@),
{
    path_tuple_id(EntityKind::Directory, project_id, rel_path)
}

/// `("file", project_id, rel_path)`
pub fn file_id(project_id: &str, rel_path: &str) -> (id: String)
    ensures
        id@ == entity_id_of(EntityKind::File, seq![EntityKind::File.name_of(), project_id@, rel_path@]),
        entity_id_shape(EntityKind::File, id@),
{
    path_tuple_id(EntityKind::File, project_id, rel_path)
}

/// `("module", project_id, rel_path)`
pub fn module_id(project_id: &str, rel_path: &str) -> (id: String)
    ensures
        id@ == entity_id_of(EntityKind::Module, seq![EntityKind::Module.name_of(), project_id@, rel_path@]),
        entity_id_shape(EntityKind::Module, id@),
{
    path_tuple_id(EntityKind::Module, project_id, rel_path)
}

/// `("document", project_id, rel_path)`
///
/// A document is 1:1 with a file, and its identity is the path it lives at, never its title.
pub fn document_id(project_id: &str, rel_path: &str) -> (id: String)
    ensures
        id@ == entity_id_of(EntityKind::Document, seq![EntityKind::Document.name_of(), project_id@, rel_path@]),
        entity_id_shape(EntityKind::Document, id@),
{
    path_tuple_id(EntityKind::Document, project_id, rel_path)
}

/// The characters of `text` without those below `0x20`.
fn strip_chars(text: &str) -> (out: Vec<char>)
    ensures
        out@ == stripped(text@),
{
    let chars = chars_of(text);
    let mut out: Vec<char> = Vec::new();
    let mut i: usize = 0;
    while i < chars.len()
        invariant
            i <= chars.len(),
            chars@ == text@,
            out@ == stripped(chars@.take(i as int)),
        decreases chars.len() - i,
    {
        let c = chars[i];
        assert(chars@.take(i + 1).drop_last() =~= chars@.take(i as int));
        if (c as u32) >= 0x20 {
            out.push(c);
        }
        i = i + 1;
    }
    assert(chars@.take(chars.len() as int) =~= chars@);
    out
}

/// Remove every character below `0x20` from attacker-controlled text.
///
/// The canonical tuple encoding is injective only because no field can contain the separator,
/// so a heading holding a literal `0x1f` would let its author choose where one tuple field ends
/// and the next begins. The whole C0 range is stripped. This is a stripping rule, not an
/// escaping one: the result is used for identity only, never for display.
pub fn strip_control(text: &str) -> (out: String)
    ensures
        out@ == stripped(text@),
{
    let chars = strip_chars(text);
    string_of(chars.as_slice())
}

/// `("section", project_id, rel_path, <heading chain…>, sibling_ordinal)`
///
/// Every heading segment enters the tuple as its own field, and every segment is passed through
/// [`strip_control`] first. `sibling_ordinal` disambiguates two sections with identical heading
/// text under the same parent.
pub fn section_id(
    project_id: &str,
    rel_path: &str,
    heading_path: &[&str],
    sibling_ordinal: u32,
) -> (id: String)
    ensures
        id@ == entity_id_of(
            EntityKind::Section,
            section_fields(project_id@, rel_path@, str_views(heading_path@), sibling_ordinal as nat),
        ),
        entity_id_shape(EntityKind::Section, id@),
{
    let mut fields: Vec<Vec<char>> = Vec::new();
    fields.push(field(EntityKind::Section.as_str()));
    fields.push(field(project_id));
    fields.push(field(rel_path));
    let ghost headings = str_views(heading_path@).map_values(|h: Seq<char>| stripped(h));
    let mut i: usize = 0;
    while i < heading_path.len()
        invariant
            i <= heading_path.len(),
            headings == str_views(heading_path@).map_values(|h: Seq<char>| stripped(h)),
            key_views(fields@) == seq![EntityKind::Section.name_of(), project_id@, rel_path@]
                + headings.take(i as int),
        decreases heading_path.len() - i,
    {
        let row = strip_chars(heading_path[i]);
        proof {
            lemma_key_views_push(fields@, row);
            assert(headings.take(i + 1) =~= headings.take(i as int).push(stripped(heading_path@[i as int]@)));
            assert(seq![EntityKind::Section.name_of(), project_id@, rel_path@] + headings.take(i + 1)
                =~= (seq![EntityKind::Section.name_of(), project_id@, rel_path@] + headings.take(i as int)).push(
                row@));
        }
        fields.push(row);
        i = i + 1;
    }
    let row = number_field(sibling_ordinal as u64);
    proof {
        lemma_key_views_push(fields@, row);
        assert(headings.take(heading_path.len() as int) =~= headings);
    }
    fields.push(row);
    assert(key_views(fields@) =~= section_fields(
        project_id@,
        rel_path@,
        str_views(heading_path@),
        sibling_ordinal as nat,
    ));
    prefixed(EntityKind::Section, &fields)
}

/// `("coverage_run", project_id, rel_path, content_hash)`
///
/// A coverage run is one report file, and its identity is the path it was read from plus the
/// bytes it contained: re-running the suite produces a different measurement that happens to
/// live at the same path.
pub fn coverage_run_id(project_id: &str, rel_path: &str, content_hash: &str) -> (id: String)
    ensures
        id@ == entity_id_of(
            EntityKind::CoverageRun,
            seq![EntityKind::CoverageRun.name_of(), project_id@, rel_path@, content_hash@],
        ),
        entity_id_shape(EntityKind::CoverageRun, id@),
{
    let fields = vec![
        field(EntityKind::CoverageRun.as_str()),
        field(project_id),
        field(rel_path),
        field(content_hash),
    ];
    assert(key_views(fields@) =~= seq![
        EntityKind::CoverageRun.name_of(),
        project_id@,
        rel_path@,
        content_hash@,
    ]);
    prefixed(EntityKind::CoverageRun, &fields)
}

/// `("endpoint", project_id, module_rel_path, endpoint_kind, method, path)`
///
/// `method` and `path` are separate fields, and both are passed through [`strip_control`]
/// first: a route path is repository text an attacker writes.
pub fn endpoint_id(
    project_id: &str,
    module_rel_path: &str,
    endpoint_kind: EndpointKind,
    method: &str,
    path: &str,
) -> (id: String)
    ensures
        id@ == entity_id_of(
            EntityKind::Endpoint,
            endpoint_fields(project_id@, module_rel_path@, endpoint_kind, method@, path@),
        ),
        entity_id_shape(EntityKind::Endpoint, id@),
{
    let fields = vec![
        field(EntityKind::Endpoint.as_str()),
        field(project_id),
        field(module_rel_path),
        field(endpoint_kind.as_str()),
        strip_chars(method),
        strip_chars(path),
    ];
    assert(key_views(fields@) =~= endpoint_fields(
        project_id@,
        module_rel_path@,
        endpoint_kind,
        method@,
        path@,
    ));
    prefixed(EntityKind::Endpoint, &fields)
}

/// `("<kind>", project_id, module_rel_path, scope_path, name, disambiguator)`
///
/// Valid only for symbol kinds. Body content is deliberately excluded: editing a function must
/// not change its identity.
pub fn symbol_id(
    kind: EntityKind,
    project_id: &str,
    module_rel_path: &str,
    scope_path: &str,
    name: &str,
    disambiguator: u32,
) -> (id: Result<String, NerveError>)
    ensures
        kind.is_symbol_kind() <==> id is Ok,
        id matches Ok(text) ==> text@ == entity_id_of(
            kind,
            symbol_fields(kind, project_id@, module_rel_path@, scope_path@, name@, disambiguator as nat),
        ) && entity_id_shape(kind, text@),
        id matches Err(e) ==> e matches NerveError::InvalidIdentityKind { kind: k, constructor: c }
            && k@ == kind.name_of() && c@ == "symbol_id"@,
{
    if !kind.is_symbol() {
        return Err(NerveError::InvalidIdentityKind { kind: kind.as_str(), constructor: "symbol_id" });
    }
    let fields = vec![
        field(kind.as_str()),
        field(project_id),
        field(module_rel_path),
        field(scope_path),
        field(name),
        number_field(disambiguator as u64),
    ];
    assert(key_views(fields@) =~= symbol_fields(
        kind,
        project_id@,
        module_rel_path@,
        scope_path@,
        name@,
        disambiguator as nat,
    ));
    Ok(prefixed(kind, &fields))
}

/// `("unresolved", project_id, importer_rel_path, category, raw_name)`
///
/// `category` is load-bearing: an unresolved module and an unresolved value with the same name
/// are two things.
pub fn unresolved_id(
    project_id: &str,
    importer_rel_path: &str,
    category: UnresolvedCategory,
    raw_name: &str,
) -> (id: String)
    ensures
        id@ == entity_id_of(
            EntityKind::Unresolved,
            seq![
                EntityKind::Unresolved.name_of(),
                project_id@,
                importer_rel_path@,
                category.name_of(),
                raw_name@,
            ],
        ),
        entity_id_shape(EntityKind::Unresolved, id@),
{
    let fields = vec![
        field(EntityKind::Unresolved.as_str()),
        field(project_id),
        field(importer_rel_path),
        field(category.as_str()),
        field(raw_name),
    ];
    assert(key_views(fields@) =~= seq![
        EntityKind::Unresolved.name_of(),
        project_id@,
        importer_rel_path@,
        category.name_of(),
        raw_name@,
    ]);
    prefixed(EntityKind::Unresolved, &fields)
}

/// `blake3(entity_id, rel_path, start_byte, end_byte)`, full hex.
///
/// Physical identity: one row per appearance of an entity at a byte span in a file. The
/// repository state is deliberately absent.
pub fn occurrence_id(entity_id: &str, rel_path: &str, start_byte: usize, end_byte: usize) -> (id:
    String)
    ensures
        id@ == digest_of(
            seq![entity_id@, rel_path@, decimal(start_byte as nat), decimal(end_byte as nat)],
        ),
        id@.len() == 64,
        forall|i: int| 0 <= i < id@.len() ==> is_lower_hex(#[trigger] id@[i]),
{
    let fields = vec![
        field(entity_id),
        field(rel_path),
        number_field(start_byte as u64),
        number_field(end_byte as u64),
    ];
    assert(key_views(fields@) =~= seq![
        entity_id@,
        rel_path@,
        decimal(start_byte as nat),
        decimal(end_byte as nat),
    ]);
    digest_chars(&fields)
}

/// `blake3(source_entity_id, relation, target_entity_id)`, full hex.
///
/// Claim identity: deduplicates claims so many observations can support one claim.
pub fn assertion_id(source_entity_id: &str, relation: Relation, target_entity_id: &str) -> (id:
    String)
    ensures
        id@ == digest_of(seq![source_entity_id@, relation.name_of(), target_entity_id@]),
        id@.len() == 64,
        forall|i: int| 0 <= i < id@.len() ==> is_lower_hex(#[trigger] id@[i]),
{
    let fields = vec![field(source_entity_id), field(relation.as_str()), field(target_entity_id)];
    assert(key_views(fields@) =~= seq![source_entity_id@, relation.name_of(), target_entity_id@]);
    digest_chars(&fields)
}

/// The paths of a list of `(path, hash)` pairs.
pub open spec fn pair_paths(pairs: Seq<(Seq<char>, Seq<char>)>) -> Seq<Seq<char>> {
    pairs.map_values(|p: (Seq<char>, Seq<char>)| p.0)
}

/// `after` holds the pairs of `before` in the order `order`, which lists every position once
/// and sorts the paths stably.
pub open spec fn stably_sorted_pairs(
    before: Seq<(Seq<char>, Seq<char>)>,
    after: Seq<(Seq<char>, Seq<char>)>,
    order: Seq<usize>,
) -> bool {
    &&& order.len() == before.len()
    &&& after.len() == before.len()
    &&& forall|p: int| 0 <= p < order.len() ==> #[trigger] order[p] < before.len()
    &&& forall|x: usize| x < before.len() ==> order.contains(x)
    &&& stably_sorted(pair_paths(before), order)
    &&& forall|p: int| 0 <= p < after.len() ==> #[trigger] after[p] == before[order[p] as int]
}

/// BLAKE3 Merkle over sorted `(rel_path, content_hash)` pairs.
///
/// The caller supplies pairs in any order; this function sorts them by `rel_path`, stably, so
/// the result is a pure function of the indexed file set and its contents.
pub fn content_merkle(pairs: &mut Vec<(String, String)>) -> (root: String)
    ensures
        exists|order: Seq<usize>|
            stably_sorted_pairs(pair_views(old(pairs)@), pair_views(final(pairs)@), order),
        root@ == blake3_hex_of(encode_utf8(merkle_text(pair_views(final(pairs)@)))),
        root@.len() == 64,
        forall|i: int| 0 <= i < root@.len() ==> is_lower_hex(#[trigger] root@[i]),
{
    let ghost before = pair_views(pairs@);
    let mut keys: Vec<Vec<char>> = Vec::new();
    let mut i: usize = 0;
    while i < pairs.len()
        invariant
            i <= pairs.len(),
            before == pair_views(pairs@),
            key_views(keys@) == pair_paths(before).take(i as int),
        decreases pairs.len() - i,
    {
        let row = chars_of(pairs[i].0.as_str());
        proof {
            lemma_key_views_push(keys@, row);
            assert(pair_paths(before).take(i + 1) =~= pair_paths(before).take(i as int).push(row@));
        }
        keys.push(row);
        i = i + 1;
    }
    assert(pair_paths(before).take(pairs.len() as int) =~= pair_paths(before));
    let order = stable_order(&keys);
    let mut sorted: Vec<(String, String)> = Vec::new();
    let mut p: usize = 0;
    while p < order.len()
        invariant
            p <= order.len(),
            order.len() == pairs.len(),
            before == pair_views(pairs@),
            forall|q: int| 0 <= q < order.len() ==> #[trigger] order@[q] < pairs.len(),
            sorted.len() == p,
            pairs@.len() == before.len(),
            forall|q: int| 0 <= q < p ==> #[trigger] pair_views(sorted@)[q] == before[order@[q] as int],
        decreases order.len() - p,
    {
        let k = order[p];
        let path = pairs[k].0.clone();
        let hash = pairs[k].1.clone();
        let ghost prior = sorted@;
        sorted.push((path, hash));
        proof {
            assert forall|q: int| 0 <= q < p + 1 implies #[trigger] pair_views(sorted@)[q] == before[order@[q] as int] by {
                if q < p {
                    assert(sorted@[q] == prior[q]);
                    assert(pair_views(prior)[q] == before[order@[q] as int]);
                }
            }
        }
        p = p + 1;
    }
    *pairs = sorted;
    proof {
        assert(key_views(keys@) == pair_paths(before));
        assert(stably_sorted_pairs(before, pair_views(pairs@), order@));
    }
    let mut text: Vec<char> = Vec::new();
    let mut j: usize = 0;
    while j < pairs.len()
        invariant
            j <= pairs.len(),
            text@ == merkle_text(pair_views(pairs@).take(j as int)),
        decreases pairs.len() - j,
    {
        extend_str(&mut text, pairs[j].0.as_str());
        text.push('\u{1f}');
        extend_str(&mut text, pairs[j].1.as_str());
        text.push('\n');
        proof {
            let after = pair_views(pairs@).take(j + 1);
            assert(after.drop_last() =~= pair_views(pairs@).take(j as int));
            assert(text@ =~= merkle_text(after));
        }
        j = j + 1;
    }
    assert(pair_views(pairs@).take(pairs.len() as int) =~= pair_views(pairs@));
    let joined = string_of(text.as_slice());
    blake3_hex(joined.as_str().as_bytes())
}

/// Every field of `fields` is free of the separator.
pub open spec fn fields_separator_free(fields: Seq<Seq<char>>) -> bool {
    forall|i: int| 0 <= i < fields.len() ==> separator_free(#[trigger] fields[i])
}

/// The canonical tuple of one or more separator-free fields determines the fields: two
/// different tuples never encode to the same text.
pub proof fn lemma_tuple_text_injective(a: Seq<Seq<char>>, b: Seq<Seq<char>>)
    requires
        a.len() >= 1,
        b.len() >= 1,
        fields_separator_free(a),
        fields_separator_free(b),
        tuple_text(a) == tuple_text(b),
    ensures
        a == b,
    decreases a.len() + b.len(),
{
    let t = tuple_text(a);
    if a.len() == 1 && b.len() == 1 {
        assert(a =~= b);
    } else if a.len() == 1 {
        let k = tuple_text(b.drop_last()).len();
        assert(t[k as int] == separator());
        assert(separator_free(a[0]));
        assert(false);
    } else if b.len() == 1 {
        let k = tuple_text(a.drop_last()).len();
        assert(t[k as int] == separator());
        assert(separator_free(b[0]));
        assert(false);
    } else {
        let la = a.last();
        let lb = b.last();
        let pa = tuple_text(a.drop_last());
        let pb = tuple_text(b.drop_last());
        assert(t == pa + seq![separator()] + la);
        assert(t == pb + seq![separator()] + lb);
        assert(separator_free(la));
        assert(separator_free(lb));
        if la.len() < lb.len() {
            let k = pa.len() as int;
            assert(t[k] == separator());
            assert(t[k] == lb[k - pb.len() - 1]);
            assert(false);
        } else if lb.len() < la.len() {
            let k = pb.len() as int;
            assert(t[k] == separator());
            assert(t[k] == la[k - pa.len() - 1]);
            assert(false);
        } else {
            assert(la =~= t.subrange(pa.len() as int + 1, t.len() as int));
            assert(lb =~= t.subrange(pb.len() as int + 1, t.len() as int));
            assert(pa =~= t.subrange(0, pa.len() as int));
            assert(pb =~= t.subrange(0, pb.len() as int));
            assert forall|i: int| 0 <= i < a.drop_last().len() implies separator_free(
                #[trigger] a.drop_last()[i],
            ) by {
                assert(a.drop_last()[i] == a[i]);
            }
            assert forall|i: int| 0 <= i < b.drop_last().len() implies separator_free(
                #[trigger] b.drop_last()[i],
            ) by {
                assert(b.drop_last()[i] == b[i]);
            }
            lemma_tuple_text_injective(a.drop_last(), b.drop_last());
            assert(a =~= a.drop_last().push(la));
            assert(b =~= b.drop_last().push(lb));
        }
    }
}

/// The hashed bytes of one or more separator-free fields determine the fields.
pub proof fn lemma_tuple_bytes_injective(a: Seq<Seq<char>>, b: Seq<Seq<char>>)
    requires
        a.len() >= 1,
        b.len() >= 1,
        fields_separator_free(a),
        fields_separator_free(b),
    ensures
        tuple_bytes(a) == tuple_bytes(b) ==> a == b,
{
    if tuple_bytes(a) == tuple_bytes(b) {
        encode_utf8_decode_utf8(tuple_text(a));
        encode_utf8_decode_utf8(tuple_text(b));
        lemma_tuple_text_injective(a, b);
    }
}

/// Stripping leaves no character below `0x20`, and in particular no separator; it keeps
/// every other character in order.
pub proof fn lemma_stripped_is_clean(text: Seq<char>)
    ensures
        forall|i: int| 0 <= i < stripped(text).len() ==> !is_control(#[trigger] stripped(text)[i]),
        separator_free(stripped(text)),
        (forall|i: int| 0 <= i < text.len() ==> !is_control(#[trigger] text[i])) ==> stripped(text)
            == text,
    decreases text.len(),
{
    if text.len() > 0 {
        lemma_stripped_is_clean(text.drop_last());
        let s = stripped(text);
        let r = stripped(text.drop_last());
        assert forall|i: int| 0 <= i < s.len() implies !is_control(#[trigger] s[i]) by {
            if !is_control(text.last()) && i < r.len() {
                assert(s[i] == r[i]);
            }
        }
        if forall|i: int| 0 <= i < text.len() ==> !is_control(#[trigger] text[i]) {
            assert forall|i: int| 0 <= i < text.drop_last().len() implies !is_control(
                #[trigger] text.drop_last()[i],
            ) by {
                assert(text.drop_last()[i] == text[i]);
            }
            assert(!is_control(text[text.len() - 1]));
            assert(text =~= text.drop_last().push(text.last()));
        }
    }
}

/// Stripping twice strips nothing more.
pub proof fn lemma_stripped_idempotent(text: Seq<char>)
    ensures
        stripped(stripped(text)) == stripped(text),
{
    lemma_stripped_is_clean(text);
    lemma_stripped_is_clean(stripped(text));
}

/// Control characters are not part of a section's identity: a heading chain and its stripped
/// form give the same tuple.
pub proof fn lemma_section_ignores_control(
    project_id: Seq<char>,
    rel_path: Seq<char>,
    heading_path: Seq<Seq<char>>,
    ordinal: nat,
)
    ensures
        section_fields(project_id, rel_path, heading_path, ordinal) == section_fields(
            project_id,
            rel_path,
            heading_path.map_values(|h: Seq<char>| stripped(h)),
            ordinal,
        ),
{
    let once = heading_path.map_values(|h: Seq<char>| stripped(h));
    let twice = once.map_values(|h: Seq<char>| stripped(h));
    assert forall|i: int| 0 <= i < once.len() implies #[trigger] twice[i] == once[i] by {
        lemma_stripped_idempotent(heading_path[i]);
    }
    assert(twice =~= once);
}

/// The canonical name of every entity kind is free of the separator.
pub proof fn lemma_kind_name_separator_free(kind: EntityKind)
    ensures
        separator_free(kind.name_of()),
        kind.name_of().len() > 0,
{
    reveal_strlit("repository");
    reveal_strlit("directory");
    reveal_strlit("file");
    reveal_strlit("module");
    reveal_strlit("function");
    reveal_strlit("method");
    reveal_strlit("class");
    reveal_strlit("interface");
    reveal_strlit("document");
    reveal_strlit("section");
    reveal_strlit("unresolved");
    reveal_strlit("coverage_run");
    reveal_strlit("endpoint");
}

/// A heading cannot forge another section's identity. When the project id and path hold no
/// separator, two sections hash the same bytes only if they agree on the project, the path,
/// the number of headings and each stripped heading, and the sibling ordinal.
pub proof fn lemma_section_identity_is_faithful(
    project_a: Seq<char>,
    rel_a: Seq<char>,
    headings_a: Seq<Seq<char>>,
    ordinal_a: nat,
    project_b: Seq<char>,
    rel_b: Seq<char>,
    headings_b: Seq<Seq<char>>,
    ordinal_b: nat,
)
    requires
        separator_free(project_a),
        separator_free(rel_a),
        separator_free(project_b),
        separator_free(rel_b),
    ensures
        tuple_bytes(section_fields(project_a, rel_a, headings_a, ordinal_a)) == tuple_bytes(
            section_fields(project_b, rel_b, headings_b, ordinal_b),
        ) ==> {
            &&& project_a == project_b
            &&& rel_a == rel_b
            &&& headings_a.map_values(|h: Seq<char>| stripped(h)) == headings_b.map_values(
                |h: Seq<char>| stripped(h),
            )
            &&& ordinal_a == ordinal_b
        },
{
    let fa = section_fields(project_a, rel_a, headings_a, ordinal_a);
    let fb = section_fields(project_b, rel_b, headings_b, ordinal_b);
    lemma_kind_name_separator_free(EntityKind::Section);
    lemma_decimal_reads_back(ordinal_a);
    lemma_decimal_reads_back(ordinal_b);
    assert forall|i: int| 0 <= i < fa.len() implies separator_free(#[trigger] fa[i]) by {
        if 3 <= i < fa.len() - 1 {
            lemma_stripped_is_clean(headings_a[i - 3]);
        } else if i == fa.len() - 1 {
            let d = decimal(ordinal_a);
            assert forall|j: int| 0 <= j < d.len() implies #[trigger] d[j] != separator() by {
                assert(is_digit(d[j]));
            }
        }
    }
    assert forall|i: int| 0 <= i < fb.len() implies separator_free(#[trigger] fb[i]) by {
        if 3 <= i < fb.len() - 1 {
            lemma_stripped_is_clean(headings_b[i - 3]);
        } else if i == fb.len() - 1 {
            let d = decimal(ordinal_b);
            assert forall|j: int| 0 <= j < d.len() implies #[trigger] d[j] != separator() by {
                assert(is_digit(d[j]));
            }
        }
    }
    lemma_tuple_bytes_injective(fa, fb);
    if tuple_bytes(fa) == tuple_bytes(fb) {
        let ha = headings_a.map_values(|h: Seq<char>| stripped(h));
        let hb = headings_b.map_values(|h: Seq<char>| stripped(h));
        assert(fa[1] == project_a && fb[1] == project_b);
        assert(fa[2] == rel_a && fb[2] == rel_b);
        assert(ha.len() == hb.len());
        assert(fa[fa.len() - 1] == decimal(ordinal_a));
        assert(fb[fb.len() - 1] == decimal(ordinal_b));
        lemma_decimal_injective(ordinal_a, ordinal_b);
        assert forall|i: int| 0 <= i < ha.len() implies ha[i] == hb[i] by {
            assert(fa[i + 3] == ha[i]);
            assert(fb[i + 3] == hb[i]);
        }
        assert(ha =~= hb);
    }
}

/// Entities of different kinds never share a tuple: the kind's name is the first field. For the
/// kinds addressed by `(kind, project_id, rel_path)`, two such tuples over separator-free text
/// hash the same bytes only when kind, project and path all agree.
pub proof fn lemma_path_identity_is_faithful(
    kind_a: EntityKind,
    project_a: Seq<char>,
    rel_a: Seq<char>,
    kind_b: EntityKind,
    project_b: Seq<char>,
    rel_b: Seq<char>,
)
    requires
        separator_free(project_a),
        separator_free(rel_a),
        separator_free(project_b),
        separator_free(rel_b),
    ensures
        tuple_bytes(seq![kind_a.name_of(), project_a, rel_a]) == tuple_bytes(
            seq![kind_b.name_of(), project_b, rel_b],
        ) ==> kind_a == kind_b && project_a == project_b && rel_a == rel_b,
{
    let fa = seq![kind_a.name_of(), project_a, rel_a];
    let fb = seq![kind_b.name_of(), project_b, rel_b];
    lemma_kind_name_separator_free(kind_a);
    lemma_kind_name_separator_free(kind_b);
    assert(fields_separator_free(fa));
    assert(fields_separator_free(fb));
    lemma_tuple_bytes_injective(fa, fb);
    EntityKind::lemma_names_distinct(kind_a, kind_b);
    if tuple_bytes(fa) == tuple_bytes(fb) {
        assert(fa[0] == fb[0]);
    }
}

/// `s` holds neither the field separator nor a line feed.
pub open spec fn merkle_field(s: Seq<char>) -> bool {
    forall|i: int| 0 <= i < s.len() ==> #[trigger] s[i] != separator() && s[i] != '\n'
}

/// One pair's line of the Merkle text.
spec fn merkle_line(p: (Seq<char>, Seq<char>)) -> Seq<char> {
    p.0 + seq![separator()] + p.1 + seq!['\n']
}

/// A text that is empty or ends a line.
spec fn ends_a_line(t: Seq<char>) -> bool {
    t.len() == 0 || t.last() == '\n'
}

/// A line feed appears in a pair's line only at its end.
proof fn lemma_line_feed_only_at_end(p: (Seq<char>, Seq<char>), i: int)
    requires
        merkle_field(p.0),
        merkle_field(p.1),
        0 <= i < merkle_line(p).len() - 1,
    ensures
        merkle_line(p)[i] != '\n',
{
    let l = merkle_line(p);
    if i < p.0.len() {
        assert(l[i] == p.0[i]);
    } else if i == p.0.len() {
        assert(l[i] == separator());
    } else {
        assert(l[i] == p.1[i - p.0.len() - 1]);
    }
}

/// Two texts that end the same, each a run of whole lines followed by one more line, split at
/// the same place: their last lines are equal, and so is what precedes them.
proof fn lemma_last_lines_equal(a: Seq<char>, x: (Seq<char>, Seq<char>), b: Seq<char>, y: (Seq<char>, Seq<char>))
    requires
        a + merkle_line(x) == b + merkle_line(y),
        ends_a_line(a),
        ends_a_line(b),
        merkle_field(x.0),
        merkle_field(x.1),
        merkle_field(y.0),
        merkle_field(y.1),
    ensures
        merkle_line(x) == merkle_line(y),
        a == b,
{
    let s = a + merkle_line(x);
    let lx = merkle_line(x);
    let ly = merkle_line(y);
    if lx.len() < ly.len() {
        let i = s.len() - lx.len() - 1;
        assert(a.len() > 0);
        assert(s[i] == a.last());
        lemma_line_feed_only_at_end(y, i - b.len());
        assert(s[i] == ly[i - b.len()]);
    } else if ly.len() < lx.len() {
        let i = s.len() - ly.len() - 1;
        assert(b.len() > 0);
        assert((b + ly)[i] == b.last());
        lemma_line_feed_only_at_end(x, i - a.len());
        assert(s[i] == lx[i - a.len()]);
    }
    assert(lx =~= s.skip(a.len() as int));
    assert(ly =~= (b + ly).skip(b.len() as int));
    assert(a =~= s.take(a.len() as int));
    assert(b =~= (b + ly).take(b.len() as int));
}

/// One pair's line determines the pair, when neither field holds the separator.
proof fn lemma_line_determines_pair(x: (Seq<char>, Seq<char>), y: (Seq<char>, Seq<char>))
    requires
        merkle_line(x) == merkle_line(y),
        merkle_field(x.0),
        merkle_field(y.0),
    ensures
        x == y,
{
    let l = merkle_line(x);
    if x.0.len() < y.0.len() {
        assert(l[x.0.len() as int] == separator());
        assert(merkle_line(y)[x.0.len() as int] == y.0[x.0.len() as int]);
    } else if y.0.len() < x.0.len() {
        assert(merkle_line(y)[y.0.len() as int] == separator());
        assert(l[y.0.len() as int] == x.0[y.0.len() as int]);
    }
    assert(x.0 =~= l.take(x.0.len() as int));
    assert(y.0 =~= merkle_line(y).take(y.0.len() as int));
    assert(x.1 =~= l.subrange(x.0.len() + 1int, l.len() - 1));
    assert(y.1 =~= merkle_line(y).subrange(y.0.len() + 1int, l.len() - 1));
}

/// The Merkle text is empty or ends a line.
proof fn lemma_merkle_text_ends_a_line(pairs: Seq<(Seq<char>, Seq<char>)>)
    ensures
        ends_a_line(merkle_text(pairs)),
{
}

/// The text a content Merkle root hashes names every file it covers: where no path or hash
/// holds the separator or a line feed, two lists of `(path, hash)` pairs hash the same text
/// only when they are the same list, so renaming, moving, adding or dropping a file, or changing
/// its content hash, changes the text.
pub proof fn lemma_merkle_text_determines_pairs(p1: Seq<(Seq<char>, Seq<char>)>, p2: Seq<(Seq<char>, Seq<char>)>)
    requires
        forall|k: int| 0 <= k < p1.len() ==> merkle_field((#[trigger] p1[k]).0) && merkle_field(p1[k].1),
        forall|k: int| 0 <= k < p2.len() ==> merkle_field((#[trigger] p2[k]).0) && merkle_field(p2[k].1),
        merkle_text(p1) == merkle_text(p2),
    ensures
        p1 == p2,
    decreases p1.len(),
{
    if p1.len() == 0 {
        if p2.len() > 0 {
            let l = merkle_line(p2.last());
            assert(merkle_text(p2) == merkle_text(p2.drop_last()) + l);
            assert(merkle_text(p2).len() >= l.len());
        }
        assert(p1 =~= p2);
    } else if p2.len() == 0 {
        let l = merkle_line(p1.last());
        assert(merkle_text(p1) == merkle_text(p1.drop_last()) + l);
    } else {
        let x = p1.last();
        let y = p2.last();
        assert(merkle_field(p1[p1.len() - 1].0) && merkle_field(p1[p1.len() - 1].1));
        assert(merkle_field(p2[p2.len() - 1].0) && merkle_field(p2[p2.len() - 1].1));
        assert(merkle_text(p1) == merkle_text(p1.drop_last()) + merkle_line(x));
        assert(merkle_text(p2) == merkle_text(p2.drop_last()) + merkle_line(y));
        lemma_merkle_text_ends_a_line(p1.drop_last());
        lemma_merkle_text_ends_a_line(p2.drop_last());
        lemma_last_lines_equal(merkle_text(p1.drop_last()), x, merkle_text(p2.drop_last()), y);
        lemma_line_determines_pair(x, y);
        assert forall|k: int| 0 <= k < p1.drop_last().len() implies merkle_field((#[trigger] p1.drop_last()[k]).0)
            && merkle_field(p1.drop_last()[k].1) by {
            assert(p1.drop_last()[k] == p1[k]);
        }
        assert forall|k: int| 0 <= k < p2.drop_last().len() implies merkle_field((#[trigger] p2.drop_last()[k]).0)
            && merkle_field(p2.drop_last()[k].1) by {
            assert(p2.drop_last()[k] == p2[k]);
        }
        lemma_merkle_text_determines_pairs(p1.drop_last(), p2.drop_last());
        assert(p1 =~= p2.drop_last().push(y));
        assert(p2 =~= p2.drop_last().push(y));
    }
}

} // verus!
