//! The digest of a resolved URL and its headers, and what it tells of them.
//!
//! The digest is a hash of the message that
//! [`bundle_message`](crate::client_registry::bundle_message) spells. Fields whose
//! names have no `=` and which hold no line break can be read back from it, so two
//! such bundles with different fields have different messages.

use crate::client_registry::{digest_credential_bundle, CredDigest};
use crate::text::{chars_of, lowercased, text_of};
use crate::types::HeaderTable;
use vstd::prelude::*;

verus! {

/// The fields that a bundle of a URL and headers has in its digest.
pub open spec fn bundle_fields(url: Seq<char>, headers: Seq<(Seq<char>, Seq<char>)>) -> Seq<
    (Seq<char>, Seq<char>),
> {
    seq![("url"@, url)] + header_fields(headers)
}

/// The fields that headers have in a digest.
pub open spec fn header_fields(headers: Seq<(Seq<char>, Seq<char>)>) -> Seq<
    (Seq<char>, Seq<char>),
> {
    headers.map_values(|header: (Seq<char>, Seq<char>)| header_field(header))
}

/// The field that a header has in a digest: its name counts in lower case.
pub open spec fn header_field(header: (Seq<char>, Seq<char>)) -> (Seq<char>, Seq<char>) {
    ("hdr:"@ + crate::text::lowercase(header.0), header.1)
}

/// The digest of a bundle of a URL and headers.
pub open spec fn bundle_digest(url: Seq<char>, headers: Seq<(Seq<char>, Seq<char>)>) -> Seq<u8> {
    crate::client_registry::blake3_hash(
        crate::client_registry::bundle_message(bundle_fields(url, headers)),
    )
}

/// Computes [`bundle_digest`].
pub fn digest_of_bundle(url: &str, headers: &HeaderTable) -> (digest: CredDigest)
    ensures
        digest@ == bundle_digest(url@, headers@),
{
    let entries = headers.entries();
    let ghost all = headers@;
    let ghost fields = bundle_fields(url@, all);
    let mut pairs: Vec<(String, String)> = Vec::new();
    pairs.push(("url".to_owned(), url.to_owned()));
    let mut i: usize = 0;
    assert(crate::types::pairs_model(pairs@) =~= fields.take(1));
    while i < entries.len()
        invariant
            i <= entries@.len(),
            all == crate::types::pairs_model(entries@),
            fields == bundle_fields(url@, all),
            crate::types::pairs_model(pairs@) == fields.take(i + 1),
        decreases entries@.len() - i,
    {
        let entry = &entries[i];
        let name = chars_of(entry.0.as_str());
        let mut field = "hdr:".to_owned();
        field.append(text_of(lowercased(name.as_slice()).as_slice()).as_str());
        let ghost so_far = crate::types::pairs_model(pairs@);
        pairs.push((field, entry.1.clone()));
        assert(fields[i + 1] == header_field(all[i as int]));
        assert(crate::types::pairs_model(pairs@) =~= so_far.push(fields[i + 1]));
        assert(fields.take(i + 2) =~= so_far.push(fields[i + 1]));
        i = i + 1;
    }
    assert(fields.take(i + 1) =~= fields);
    digest_credential_bundle(pairs.as_slice())
}

/// Whether a field can be told apart from its neighbours in a message.
pub open spec fn is_clean_field(field: (Seq<char>, Seq<char>)) -> bool {
    &&& !field.0.contains('=')
    &&& !field.0.contains('\n')
    &&& !field.1.contains('\n')
}

/// Whether all fields are clean.
pub open spec fn are_clean_fields(fields: Seq<(Seq<char>, Seq<char>)>) -> bool {
    forall|i: int| 0 <= i < fields.len() ==> is_clean_field(#[trigger] fields[i])
}

/// The byte of an ASCII character occurs in the encoding of no other character.
proof fn lemma_scalar_bytes(c: char, ascii: char, byte: u8)
    requires
        byte < 128,
        ascii as u32 == byte as u32,
        c != ascii,
    ensures
        !vstd::utf8::encode_scalar(c as u32).contains(byte),
{
    let scalar = c as u32;
    vstd::utf8::char_is_scalar(c);
    assert(scalar <= 0x7F ==> (scalar & 0x7F) as u8 == scalar) by (bit_vector);
    assert(0xC0 | ((scalar >> 6) & 0x1F) as u8 >= 128) by (bit_vector);
    assert(0xE0 | ((scalar >> 12) & 0x0F) as u8 >= 128) by (bit_vector);
    assert(0xF0 | ((scalar >> 18) & 0x7) as u8 >= 128) by (bit_vector);
    assert(0x80 | (scalar & 0x3F) as u8 >= 128) by (bit_vector);
    assert(0x80 | ((scalar >> 6) & 0x3F) as u8 >= 128) by (bit_vector);
    assert(0x80 | ((scalar >> 12) & 0x3F) as u8 >= 128) by (bit_vector);
}

proof fn lemma_text_bytes(text: Seq<char>, c: char, byte: u8)
    requires
        byte < 128,
        c as u32 == byte as u32,
        !text.contains(c),
    ensures
        !vstd::utf8::encode_utf8(text).contains(byte),
    decreases text.len(),
{
    if text.len() > 0 {
        let first = vstd::utf8::encode_scalar(text[0] as u32);
        let rest = text.drop_first();
        assert(text.contains(text[0]));
        assert forall|i: int| 0 <= i < rest.len() implies #[trigger] rest[i] != c by {
            assert(rest[i] == text[i + 1]);
        }
        lemma_scalar_bytes(text[0], c, byte);
        lemma_text_bytes(rest, c, byte);
        let bytes = vstd::utf8::encode_utf8(text);
        assert forall|i: int| 0 <= i < bytes.len() implies #[trigger] bytes[i] != byte by {
            if i < first.len() {
                assert(first.contains(first[i]));
            } else {
                let tail = vstd::utf8::encode_utf8(rest);
                assert(tail.contains(tail[i - first.len()]));
            }
        }
    }
}

/// Two sequences that agree up to a mark, and hold the mark there first, agree in
/// what stands before the mark and behind it.
proof fn lemma_cut_at_mark(a: Seq<u8>, b: Seq<u8>, x: Seq<u8>, y: Seq<u8>, mark: u8)
    requires
        !a.contains(mark),
        !b.contains(mark),
        a + seq![mark] + x == b + seq![mark] + y,
    ensures
        a == b,
        x == y,
{
    let left = a + seq![mark] + x;
    let right = b + seq![mark] + y;
    if a.len() < b.len() {
        assert(right[a.len() as int] == b[a.len() as int]);
        assert(left[a.len() as int] == mark);
        assert(b.contains(b[a.len() as int]));
    } else if b.len() < a.len() {
        assert(left[b.len() as int] == a[b.len() as int]);
        assert(right[b.len() as int] == mark);
        assert(a.contains(a[b.len() as int]));
    }
    assert(left.take(a.len() as int) =~= a);
    assert(right.take(a.len() as int) =~= b);
    assert(left.skip(a.len() as int + 1) =~= x);
    assert(right.skip(a.len() as int + 1) =~= y);
}

proof fn lemma_same_text(a: Seq<char>, b: Seq<char>)
    requires
        vstd::utf8::encode_utf8(a) == vstd::utf8::encode_utf8(b),
    ensures
        a == b,
{
    vstd::utf8::encode_utf8_decode_utf8(a);
    vstd::utf8::encode_utf8_decode_utf8(b);
}

proof fn lemma_first_line(
    f: (Seq<char>, Seq<char>),
    g: (Seq<char>, Seq<char>),
    x: Seq<u8>,
    y: Seq<u8>,
)
    requires
        is_clean_field(f),
        is_clean_field(g),
        crate::client_registry::field_line(f) + x == crate::client_registry::field_line(g) + y,
    ensures
        f == g,
        x == y,
{
    let (f_name, f_value) = (vstd::utf8::encode_utf8(f.0), vstd::utf8::encode_utf8(f.1));
    let (g_name, g_value) = (vstd::utf8::encode_utf8(g.0), vstd::utf8::encode_utf8(g.1));
    lemma_text_bytes(f.0, '=', 61);
    lemma_text_bytes(g.0, '=', 61);
    lemma_text_bytes(f.1, '\n', 10);
    lemma_text_bytes(g.1, '\n', 10);
    let f_rest = f_value + seq![10u8] + x;
    let g_rest = g_value + seq![10u8] + y;
    assert(crate::client_registry::field_line(f) + x =~= f_name + seq![61u8] + f_rest);
    assert(crate::client_registry::field_line(g) + y =~= g_name + seq![61u8] + g_rest);
    lemma_cut_at_mark(f_name, g_name, f_rest, g_rest, 61);
    lemma_cut_at_mark(f_value, g_value, x, y, 10);
    lemma_same_text(f.0, g.0);
    lemma_same_text(f.1, g.1);
}

proof fn lemma_lines_from_the_front(fields: Seq<(Seq<char>, Seq<char>)>)
    requires
        fields.len() > 0,
    ensures
        crate::client_registry::field_lines(fields) == crate::client_registry::field_line(
            fields.first(),
        ) + crate::client_registry::field_lines(fields.drop_first()),
    decreases fields.len(),
{
    let shorter = fields.drop_last();
    let rest = fields.drop_first();
    if fields.len() > 1 {
        lemma_lines_from_the_front(shorter);
        assert(shorter.drop_first() =~= rest.drop_last());
        assert(shorter.first() == fields.first());
        assert(rest.last() == fields.last());
    } else {
        assert(shorter =~= Seq::empty());
        assert(rest =~= Seq::empty());
        assert(fields.last() == fields.first());
    }
    assert(crate::client_registry::field_lines(fields) =~= crate::client_registry::field_line(
        fields.first(),
    ) + crate::client_registry::field_lines(rest));
}

/// The fields of a message can be read back from it.
pub proof fn law_message_tells_its_fields(
    a: Seq<(Seq<char>, Seq<char>)>,
    b: Seq<(Seq<char>, Seq<char>)>,
)
    requires
        are_clean_fields(a),
        are_clean_fields(b),
        crate::client_registry::field_lines(a) == crate::client_registry::field_lines(b),
    ensures
        a == b,
    decreases a.len(),
{
    if a.len() == 0 || b.len() == 0 {
        if a.len() > 0 {
            lemma_lines_from_the_front(a);
        }
        if b.len() > 0 {
            lemma_lines_from_the_front(b);
        }
        assert(a =~= b);
    } else {
        lemma_lines_from_the_front(a);
        lemma_lines_from_the_front(b);
        let rest_a = a.drop_first();
        let rest_b = b.drop_first();
        assert(is_clean_field(a[0]));
        assert(is_clean_field(b[0]));
        lemma_first_line(
            a.first(),
            b.first(),
            crate::client_registry::field_lines(rest_a),
            crate::client_registry::field_lines(rest_b),
        );
        assert forall|i: int| 0 <= i < rest_a.len() implies is_clean_field(
            #[trigger] rest_a[i],
        ) by {
            assert(rest_a[i] == a[i + 1]);
        }
        assert forall|i: int| 0 <= i < rest_b.len() implies is_clean_field(
            #[trigger] rest_b[i],
        ) by {
            assert(rest_b[i] == b[i + 1]);
        }
        law_message_tells_its_fields(rest_a, rest_b);
        assert(a =~= seq![a.first()] + rest_a);
        assert(b =~= seq![b.first()] + rest_b);
    }
}

/// Bundles with the same message have the same fields: a digest stands for other
/// fields only where the hash itself collides.
pub proof fn law_same_message_same_fields(
    a: Seq<(Seq<char>, Seq<char>)>,
    b: Seq<(Seq<char>, Seq<char>)>,
)
    requires
        are_clean_fields(a),
        are_clean_fields(b),
        crate::client_registry::bundle_message(a) == crate::client_registry::bundle_message(b),
    ensures
        a.to_multiset() == b.to_multiset(),
        forall|field: (Seq<char>, Seq<char>)| #[trigger] a.contains(field) <==> b.contains(field),
{
    let le = crate::sort::by_both();
    let sorted_a = crate::sort::stable_sort(a, le);
    let sorted_b = crate::sort::stable_sort(b, le);
    lemma_sorted_clean(a, sorted_a);
    lemma_sorted_clean(b, sorted_b);
    law_message_tells_its_fields(sorted_a, sorted_b);
    crate::sort::law_sort_keeps_items(a, le);
    crate::sort::law_sort_keeps_items(b, le);
    broadcast use vstd::seq_lib::group_to_multiset_ensures;

    assert forall|field: (Seq<char>, Seq<char>)| #[trigger] a.contains(field) <==> b.contains(
        field,
    ) by {
        assert(a.contains(field) <==> a.to_multiset().count(field) > 0);
        assert(b.contains(field) <==> b.to_multiset().count(field) > 0);
    }
}

proof fn lemma_sorted_clean(
    fields: Seq<(Seq<char>, Seq<char>)>,
    sorted: Seq<(Seq<char>, Seq<char>)>,
)
    requires
        are_clean_fields(fields),
        sorted == crate::sort::stable_sort(fields, crate::sort::by_both()),
    ensures
        are_clean_fields(sorted),
{
    broadcast use vstd::seq_lib::group_to_multiset_ensures;

    crate::sort::law_sort_keeps_items(fields, crate::sort::by_both());
    assert forall|i: int| 0 <= i < sorted.len() implies is_clean_field(#[trigger] sorted[i]) by {
        assert(sorted.contains(sorted[i]));
        assert(sorted.to_multiset().count(sorted[i]) > 0);
        assert(fields.to_multiset().count(sorted[i]) > 0);
        assert(fields.contains(sorted[i]));
    }
}

proof fn lemma_header_fields_permute(
    a: Seq<(Seq<char>, Seq<char>)>,
    b: Seq<(Seq<char>, Seq<char>)>,
)
    requires
        a.to_multiset() == b.to_multiset(),
    ensures
        header_fields(a).to_multiset() == header_fields(b).to_multiset(),
    decreases a.len(),
{
    broadcast use vstd::seq_lib::group_to_multiset_ensures;

    assert(a.len() == a.to_multiset().len());
    assert(b.len() == b.to_multiset().len());
    if a.len() == 0 {
        assert(header_fields(a) =~= header_fields(b));
    } else {
        let last = a.last();
        let short_a = a.drop_last();
        assert(a.contains(last));
        assert(a.to_multiset().count(last) > 0);
        assert(b.contains(last));
        let i = choose|i: int| 0 <= i < b.len() && b[i] == last;
        let short_b = b.remove(i);
        assert(short_a =~= a.remove(a.len() - 1));
        vstd::seq_lib::to_multiset_remove(a, a.len() - 1);
        vstd::seq_lib::to_multiset_remove(b, i);
        lemma_header_fields_permute(short_a, short_b);
        assert(header_fields(short_a) =~= header_fields(a).remove(a.len() - 1));
        assert(header_fields(short_b) =~= header_fields(b).remove(i));
        vstd::seq_lib::to_multiset_remove(header_fields(a), a.len() - 1);
        vstd::seq_lib::to_multiset_remove(header_fields(b), i);
        let field = header_field(last);
        assert(header_fields(a)[a.len() - 1] == field);
        assert(header_fields(b)[i] == field);
        assert(header_fields(a).contains(field));
        assert(header_fields(b).contains(field));
        assert(header_fields(a).to_multiset() =~= header_fields(short_a).to_multiset().insert(
            field,
        ));
        assert(header_fields(b).to_multiset() =~= header_fields(short_b).to_multiset().insert(
            field,
        ));
    }
}

/// The digest of a bundle does not depend on the order of its headers.
pub proof fn law_bundle_digest_ignores_header_order(
    url: Seq<char>,
    a: Seq<(Seq<char>, Seq<char>)>,
    b: Seq<(Seq<char>, Seq<char>)>,
)
    requires
        a.to_multiset() == b.to_multiset(),
    ensures
        bundle_digest(url, a) == bundle_digest(url, b),
{
    lemma_header_fields_permute(a, b);
    let first = seq![("url"@, url)];
    vstd::seq_lib::lemma_multiset_commutative(first, header_fields(a));
    vstd::seq_lib::lemma_multiset_commutative(first, header_fields(b));
    crate::client_registry::law_digest_ignores_order(bundle_fields(url, a), bundle_fields(url, b));
}

/// Whether all headers have names and values that can be sent.
pub open spec fn can_be_sent(headers: Seq<(Seq<char>, Seq<char>)>) -> bool {
    forall|i: int|
        0 <= i < headers.len() ==> crate::headers::is_header_name((#[trigger] headers[i]).0)
            && crate::headers::is_header_value(headers[i].1)
}

proof fn lemma_fields_are_clean(url: Seq<char>, headers: Seq<(Seq<char>, Seq<char>)>)
    requires
        !url.contains('\n'),
        can_be_sent(headers),
    ensures
        are_clean_fields(bundle_fields(url, headers)),
{
    let fields = bundle_fields(url, headers);
    reveal_strlit("url");
    reveal_strlit("hdr:");
    assert forall|i: int| 0 <= i < fields.len() implies is_clean_field(
        #[trigger] fields[i],
    ) by {
        if i > 0 {
            let header = headers[i - 1];
            assert(fields[i] == header_field(header));
            let name = fields[i].0;
            let lower = crate::text::lowercase(header.0);
            crate::headers::lemma_header_name(header.0);
            assert forall|j: int| 0 <= j < name.len() implies #[trigger] name[j] != '='
                && name[j] != '\n' by {
                if j >= 4 {
                    assert(name[j] == lower[j - 4]);
                    assert(crate::headers::is_name_char(lower[j - 4]));
                }
            }
            assert forall|j: int| 0 <= j < header.1.len() implies #[trigger] header.1[j]
                != '\n' by {
                assert(crate::headers::is_value_char(header.1[j]));
            }
        } else {
            assert(fields[0] == ("url"@, url));
        }
    }
}

/// Two calls whose digests hash the same message have the same URL and the same
/// headers, their names taken in lower case: calls share a client only where all
/// of this is equal, or where the hash itself collides.
pub proof fn law_same_message_same_bundle(
    url_a: Seq<char>,
    headers_a: Seq<(Seq<char>, Seq<char>)>,
    url_b: Seq<char>,
    headers_b: Seq<(Seq<char>, Seq<char>)>,
)
    requires
        !url_a.contains('\n'),
        !url_b.contains('\n'),
        can_be_sent(headers_a),
        can_be_sent(headers_b),
        crate::client_registry::bundle_message(bundle_fields(url_a, headers_a))
            == crate::client_registry::bundle_message(bundle_fields(url_b, headers_b)),
    ensures
        url_a == url_b,
        forall|field: (Seq<char>, Seq<char>)| #[trigger]
            bundle_fields(url_a, headers_a).contains(field) <==> bundle_fields(
                url_b,
                headers_b,
            ).contains(field),
{
    let fields_a = bundle_fields(url_a, headers_a);
    let fields_b = bundle_fields(url_b, headers_b);
    lemma_fields_are_clean(url_a, headers_a);
    lemma_fields_are_clean(url_b, headers_b);
    law_same_message_same_fields(fields_a, fields_b);
    reveal_strlit("url");
    reveal_strlit("hdr:");
    assert(fields_a[0] == ("url"@, url_a));
    assert(fields_a.contains(("url"@, url_a)));
    let i = choose|i: int| 0 <= i < fields_b.len() && fields_b[i] == ("url"@, url_a);
    if i > 0 {
        assert(fields_b[i] == header_field(headers_b[i - 1]));
        assert(fields_b[i].0[0] == 'h');
        assert("url"@[0] == 'u');
    }
}

/// Two bundles whose digests hash the same message have the same URL, and each header of the one
/// is one of the other: the same name but for its case, and the same value. Whatever differs in a
/// URL or in any header value leads to another client.
pub proof fn law_same_message_same_headers(
    url_a: Seq<char>,
    headers_a: Seq<(Seq<char>, Seq<char>)>,
    url_b: Seq<char>,
    headers_b: Seq<(Seq<char>, Seq<char>)>,
    i: int,
)
    requires
        !url_a.contains('\n'),
        !url_b.contains('\n'),
        can_be_sent(headers_a),
        can_be_sent(headers_b),
        crate::client_registry::bundle_message(bundle_fields(url_a, headers_a))
            == crate::client_registry::bundle_message(bundle_fields(url_b, headers_b)),
        0 <= i < headers_a.len(),
    ensures
        url_a == url_b,
        headers_a.len() == headers_b.len(),
        exists|j: int|
            {
                &&& 0 <= j < headers_b.len()
                &&& crate::text::eq_ignore_case((#[trigger] headers_b[j]).0, headers_a[i].0)
                &&& headers_b[j].1 == headers_a[i].1
            },
{
    broadcast use vstd::seq_lib::group_to_multiset_ensures;

    law_same_message_same_bundle(url_a, headers_a, url_b, headers_b);
    let fields_a = bundle_fields(url_a, headers_a);
    let fields_b = bundle_fields(url_b, headers_b);
    lemma_fields_are_clean(url_a, headers_a);
    lemma_fields_are_clean(url_b, headers_b);
    law_same_message_same_fields(fields_a, fields_b);
    assert(fields_a.len() == headers_a.len() + 1);
    assert(fields_b.len() == headers_b.len() + 1);
    assert(fields_a.to_multiset().len() == fields_a.len());
    assert(fields_b.to_multiset().len() == fields_b.len());
    reveal_strlit("url");
    reveal_strlit("hdr:");
    let field = header_field(headers_a[i]);
    assert(fields_a[i + 1] == field);
    assert(fields_a.contains(field));
    let n = choose|n: int| 0 <= n < fields_b.len() && fields_b[n] == field;
    if n == 0 {
        assert(field.0[0] == 'h');
        assert("url"@[0] == 'u');
    }
    let j = n - 1;
    assert(fields_b[n] == header_field(headers_b[j]));
    let (x, y) = (
        crate::text::lowercase(headers_a[i].0),
        crate::text::lowercase(headers_b[j].0),
    );
    assert(("hdr:"@ + x).skip(4) =~= x);
    assert(("hdr:"@ + y).skip(4) =~= y);
    assert(crate::text::eq_ignore_case(headers_b[j].0, headers_a[i].0));
}

/// The case of a header name makes no difference: bundles whose headers have the same names but
/// for their case, and the same values, have the same digest.
pub proof fn law_digest_ignores_the_case_of_names(
    url: Seq<char>,
    a: Seq<(Seq<char>, Seq<char>)>,
    b: Seq<(Seq<char>, Seq<char>)>,
)
    requires
        a.len() == b.len(),
        forall|i: int|
            0 <= i < a.len() ==> crate::text::eq_ignore_case((#[trigger] a[i]).0, b[i].0) && a[i].1
                == b[i].1,
    ensures
        bundle_digest(url, a) == bundle_digest(url, b),
{
    assert forall|i: int| 0 <= i < a.len() implies #[trigger] header_fields(a)[i] == header_fields(
        b,
    )[i] by {
        assert(crate::text::eq_ignore_case(a[i].0, b[i].0));
    }
    assert(header_fields(a) =~= header_fields(b));
}

/// The digest of a bundle is the hash of the message that its URL and all its headers make.
pub proof fn law_bundle_digest_is_a_hash(
    url: &str,
    headers: &HeaderTable,
    digest: CredDigest,
)
    requires
        call_ensures(digest_of_bundle, (url, headers), digest),
    ensures
        digest@ == crate::client_registry::blake3_hash(
            crate::client_registry::bundle_message(bundle_fields(url@, headers@)),
        ),
        bundle_fields(url@, headers@).len() == headers@.len() + 1,
        bundle_fields(url@, headers@)[0] == ("url"@, url@),
        forall|i: int|
            #![trigger headers@[i]]
            0 <= i < headers@.len() ==> bundle_fields(url@, headers@)[i + 1] == (
                "hdr:"@ + crate::text::lowercase(headers@[i].0),
                headers@[i].1,
            ),
{
}

} // verus!
