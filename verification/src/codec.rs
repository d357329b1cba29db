//! The byte encoding of a record set.
//!
//! A text is written as the length of its UTF-8 form, as eight little-endian
//! bytes, followed by that form. An entry is its account followed by its
//! secret. A record set is the number of its entries, as eight little-endian
//! bytes, followed by the entries in order. Nothing follows the last entry.

use crate::error::VaultError;
use crate::vault::deserialize;
use crate::vault::entry_views;
use crate::vault::serialize;
use crate::vault::EntryView;
use crate::vault::PasswordEntry;
use crate::vault::Vault;
use vstd::bytes::*;
use vstd::prelude::*;
use vstd::slice::*;
use vstd::utf8::*;

verus! {

/// A length as eight little-endian bytes.
pub open spec fn length_prefix(n: int) -> Seq<u8> {
    spec_u64_to_le_bytes(n as u64)
}

/// The encoding of a text: the length of its UTF-8 form, then that form.
pub open spec fn text_record(text: Seq<char>) -> Seq<u8> {
    length_prefix(encode_utf8(text).len() as int) + encode_utf8(text)
}

/// The encoding of an entry: the account, then the secret.
pub open spec fn entry_record(entry: EntryView) -> Seq<u8> {
    text_record(entry.account) + text_record(entry.secret)
}

/// The encodings of the entries, one after the other.
pub open spec fn entry_records(entries: Seq<EntryView>) -> Seq<u8>
    decreases entries.len(),
{
    if entries.len() == 0 {
        Seq::empty()
    } else {
        entry_record(entries.first()) + entry_records(entries.drop_first())
    }
}

/// The encoding of a record set: the number of entries, then the entries.
pub open spec fn encoding(entries: Seq<EntryView>) -> Seq<u8> {
    length_prefix(entries.len() as int) + entry_records(entries)
}

/// The UTF-8 form of the text has a length that eight bytes can hold.
pub open spec fn text_fits(text: Seq<char>) -> bool {
    encode_utf8(text).len() <= u64::MAX
}

/// Both texts of the entry fit.
pub open spec fn entry_fits(entry: EntryView) -> bool {
    text_fits(entry.account) && text_fits(entry.secret)
}

/// Every entry fits.
pub open spec fn entries_fit(entries: Seq<EntryView>) -> bool {
    forall|i: int| 0 <= i < entries.len() ==> entry_fits(#[trigger] entries[i])
}

/// The record set can be encoded: eight bytes can hold the number of its
/// entries, and every entry fits. Every record set in memory is encodable.
pub open spec fn encodable(entries: Seq<EntryView>) -> bool {
    entries.len() <= u64::MAX && entries_fit(entries)
}

/// Some encodable record set has `bytes` as its encoding.
pub open spec fn decodable(bytes: Seq<u8>) -> bool {
    exists|entries: Seq<EntryView>| encodable(entries) && #[trigger] encoding(entries) == bytes
}

/// The record set that `bytes` encodes, if there is one.
pub open spec fn decoding(bytes: Seq<u8>) -> Option<Seq<EntryView>> {
    if decodable(bytes) {
        Some(choose|entries: Seq<EntryView>| encodable(entries) && #[trigger] encoding(entries) == bytes)
    } else {
        None
    }
}

/// The number that the first eight bytes hold.
pub open spec fn read_length(bytes: Seq<u8>) -> Option<int> {
    if bytes.len() >= 8 {
        Some(spec_u64_from_le_bytes(bytes.subrange(0, 8)) as int)
    } else {
        None
    }
}

/// The text at the start of `bytes`, and the number of bytes that it takes.
pub open spec fn read_text(bytes: Seq<u8>) -> Option<(Seq<char>, int)> {
    match read_length(bytes) {
        Some(n) => {
            if 8 + n <= bytes.len() && valid_utf8(bytes.subrange(8, 8 + n)) {
                Some((decode_utf8(bytes.subrange(8, 8 + n)), 8 + n))
            } else {
                None
            }
        },
        None => None,
    }
}

/// The entry at the start of `bytes`, and the number of bytes that it takes.
pub open spec fn read_entry(bytes: Seq<u8>) -> Option<(EntryView, int)> {
    match read_text(bytes) {
        Some((account, taken)) => match read_text(bytes.skip(taken)) {
            Some((secret, more)) => Some((EntryView { account, secret }, taken + more)),
            None => None,
        },
        None => None,
    }
}

/// A result of reading, moved behind what was read before it.
pub open spec fn after(
    before: Seq<EntryView>,
    taken: int,
    rest: Option<(Seq<EntryView>, int)>,
) -> Option<(Seq<EntryView>, int)> {
    match rest {
        Some((entries, more)) => Some((before + entries, taken + more)),
        None => None,
    }
}

/// The `count` entries at the start of `bytes`, and the number of bytes that
/// they take.
pub open spec fn read_entries(bytes: Seq<u8>, count: int) -> Option<(Seq<EntryView>, int)>
    decreases count,
{
    if count <= 0 {
        Some((Seq::empty(), 0))
    } else {
        match read_entry(bytes) {
            Some((entry, taken)) => after(
                seq![entry],
                taken,
                read_entries(bytes.skip(taken), count - 1),
            ),
            None => None,
        }
    }
}

/// The record set that is read from `bytes` from the first byte to the last.
pub open spec fn read_all(bytes: Seq<u8>) -> Option<Seq<EntryView>> {
    match read_length(bytes) {
        Some(count) => match read_entries(bytes.skip(8), count) {
            Some((entries, taken)) => if 8 + taken == bytes.len() {
                Some(entries)
            } else {
                None
            },
            None => None,
        },
        None => None,
    }
}

/// Reading a length that was written gives it back.
pub proof fn lemma_length_prefix(n: int, rest: Seq<u8>)
    requires
        0 <= n <= u64::MAX,
    ensures
        length_prefix(n).len() == 8,
        read_length(length_prefix(n) + rest) == Some(n),
{
    lemma_auto_spec_u64_to_from_le_bytes();
    assert((length_prefix(n) + rest).subrange(0, 8) =~= length_prefix(n));
}

/// The first eight bytes are the prefix of the length that is read from them.
pub proof fn lemma_read_length(bytes: Seq<u8>)
    requires
        bytes.len() >= 8,
    ensures
        read_length(bytes) is Some,
        0 <= read_length(bytes)->Some_0 <= u64::MAX,
        length_prefix(read_length(bytes)->Some_0) == bytes.subrange(0, 8),
{
    lemma_auto_spec_u64_to_from_le_bytes();
    let head = bytes.subrange(0, 8);
    assert(spec_u64_to_le_bytes(spec_u64_from_le_bytes(head)) == head);
}

/// Reading a text that was written gives it back, whatever follows it.
pub proof fn lemma_read_text_record(text: Seq<char>, rest: Seq<u8>)
    requires
        text_fits(text),
    ensures
        read_text(text_record(text) + rest) == Some((text, text_record(text).len() as int)),
{
    let body = encode_utf8(text);
    let bytes = text_record(text) + rest;
    lemma_length_prefix(body.len() as int, body + rest);
    assert(bytes =~= length_prefix(body.len() as int) + (body + rest));
    assert(bytes.subrange(8, 8 + body.len() as int) =~= body);
    encode_utf8_valid_utf8(text);
    encode_utf8_decode_utf8(text);
}

/// What was read as a text is the encoding of that text.
pub proof fn lemma_text_record_read(bytes: Seq<u8>)
    requires
        read_text(bytes) is Some,
    ensures
        text_fits(read_text(bytes)->Some_0.0),
        8 <= read_text(bytes)->Some_0.1 <= bytes.len(),
        bytes.subrange(0, read_text(bytes)->Some_0.1) == text_record(
            read_text(bytes)->Some_0.0,
        ),
{
    lemma_read_length(bytes);
    let n = read_length(bytes)->Some_0;
    let body = bytes.subrange(8, 8 + n);
    decode_utf8_encode_utf8(body);
    assert(bytes.subrange(0, 8 + n) =~= bytes.subrange(0, 8) + body);
}

/// Reading an entry that was written gives it back, whatever follows it.
pub proof fn lemma_read_entry_record(entry: EntryView, rest: Seq<u8>)
    requires
        entry_fits(entry),
    ensures
        read_entry(entry_record(entry) + rest) == Some((entry, entry_record(entry).len() as int)),
{
    let first = text_record(entry.account);
    let second = text_record(entry.secret);
    let bytes = entry_record(entry) + rest;
    assert(bytes =~= first + (second + rest));
    lemma_read_text_record(entry.account, second + rest);
    assert(bytes.skip(first.len() as int) =~= second + rest);
    lemma_read_text_record(entry.secret, rest);
}

/// What was read as an entry is the encoding of that entry.
pub proof fn lemma_entry_record_read(bytes: Seq<u8>)
    requires
        read_entry(bytes) is Some,
    ensures
        entry_fits(read_entry(bytes)->Some_0.0),
        16 <= read_entry(bytes)->Some_0.1 <= bytes.len(),
        bytes.subrange(0, read_entry(bytes)->Some_0.1) == entry_record(read_entry(bytes)->Some_0.0),
{
    lemma_text_record_read(bytes);
    let taken = read_text(bytes)->Some_0.1;
    let tail = bytes.skip(taken);
    lemma_text_record_read(tail);
    let more = read_text(tail)->Some_0.1;
    assert(bytes.subrange(0, taken + more) =~= bytes.subrange(0, taken) + tail.subrange(0, more));
}

/// Reading entries that were written gives them back, whatever follows them.
pub proof fn lemma_read_entry_records(entries: Seq<EntryView>, rest: Seq<u8>)
    requires
        entries_fit(entries),
    ensures
        read_entries(entry_records(entries) + rest, entries.len() as int) == Some(
            (entries, entry_records(entries).len() as int),
        ),
    decreases entries.len(),
{
    let bytes = entry_records(entries) + rest;
    if entries.len() == 0 {
        assert(entries =~= Seq::empty());
    } else {
        let first = entries.first();
        let others = entries.drop_first();
        let head = entry_record(first);
        assert(bytes =~= head + (entry_records(others) + rest));
        lemma_read_entry_record(first, entry_records(others) + rest);
        assert(bytes.skip(head.len() as int) =~= entry_records(others) + rest);
        assert(entries_fit(others)) by {
            assert forall|i: int| 0 <= i < others.len() implies entry_fits(#[trigger] others[i]) by {
                assert(others[i] == entries[i + 1]);
            }
        }
        lemma_read_entry_records(others, rest);
        assert(seq![first] + others =~= entries);
    }
}

/// What was read as `count` entries is the encoding of those entries.
pub proof fn lemma_entry_records_read(bytes: Seq<u8>, count: int)
    requires
        0 <= count,
        read_entries(bytes, count) is Some,
    ensures
        read_entries(bytes, count)->Some_0.0.len() == count,
        entries_fit(read_entries(bytes, count)->Some_0.0),
        0 <= read_entries(bytes, count)->Some_0.1 <= bytes.len(),
        bytes.subrange(0, read_entries(bytes, count)->Some_0.1) == entry_records(
            read_entries(bytes, count)->Some_0.0,
        ),
    decreases count,
{
    let entries = read_entries(bytes, count)->Some_0.0;
    let total = read_entries(bytes, count)->Some_0.1;
    if count == 0 {
        assert(bytes.subrange(0, 0) =~= Seq::<u8>::empty());
    } else {
        lemma_entry_record_read(bytes);
        let first = read_entry(bytes)->Some_0.0;
        let taken = read_entry(bytes)->Some_0.1;
        let tail = bytes.skip(taken);
        lemma_entry_records_read(tail, count - 1);
        let others = read_entries(tail, count - 1)->Some_0.0;
        let more = read_entries(tail, count - 1)->Some_0.1;
        assert(entries == seq![first] + others);
        assert(entries.first() == first);
        assert(entries.drop_first() =~= others);
        assert(bytes.subrange(0, total) =~= bytes.subrange(0, taken) + tail.subrange(0, more));
        assert forall|i: int| 0 <= i < entries.len() implies entry_fits(#[trigger] entries[i]) by {
            if i > 0 {
                assert(entries[i] == others[i - 1]);
            }
        }
    }
}

/// Reading an encoding from its first byte to its last gives the record set.
pub proof fn lemma_read_all_encoding(entries: Seq<EntryView>)
    requires
        encodable(entries),
    ensures
        read_all(encoding(entries)) == Some(entries),
{
    let body = entry_records(entries);
    let bytes = encoding(entries);
    lemma_length_prefix(entries.len() as int, body);
    assert(bytes.skip(8) =~= body + Seq::<u8>::empty());
    lemma_read_entry_records(entries, Seq::empty());
}

/// What was read from the first byte to the last is encodable, and the bytes
/// are its encoding.
pub proof fn lemma_encoding_read_all(bytes: Seq<u8>)
    requires
        read_all(bytes) is Some,
    ensures
        encodable(read_all(bytes)->Some_0),
        encoding(read_all(bytes)->Some_0) == bytes,
{
    lemma_read_length(bytes);
    let count = read_length(bytes)->Some_0;
    lemma_entry_records_read(bytes.skip(8), count);
    let taken = read_entries(bytes.skip(8), count)->Some_0.1;
    assert(bytes.skip(8).subrange(0, taken) =~= bytes.skip(8));
    assert(bytes =~= bytes.subrange(0, 8) + bytes.skip(8));
}

/// Reading from the first byte to the last finds the record set that the
/// bytes encode, and fails where there is none.
pub proof fn lemma_decoding_reads(bytes: Seq<u8>)
    ensures
        decoding(bytes) == read_all(bytes),
{
    if read_all(bytes) is Some {
        lemma_encoding_read_all(bytes);
        let found = read_all(bytes)->Some_0;
        assert(encodable(found) && encoding(found) == bytes);
        let chosen = decoding(bytes)->Some_0;
        lemma_read_all_encoding(chosen);
    } else {
        if decodable(bytes) {
            let witness = choose|entries: Seq<EntryView>|
                encodable(entries) && #[trigger] encoding(entries) == bytes;
            lemma_read_all_encoding(witness);
        }
    }
}

/// Decoding undoes encoding: the encoding of an encodable record set decodes
/// to that record set, with every entry in its place.
pub proof fn lemma_decode_encode(entries: Seq<EntryView>)
    requires
        encodable(entries),
    ensures
        decoding(encoding(entries)) == Some(entries),
{
    lemma_decoding_reads(encoding(entries));
    lemma_read_all_encoding(entries);
}

/// Encoding undoes decoding: bytes that decode are the encoding of what they
/// decode to, so no two byte strings decode to the same record set.
pub proof fn lemma_encode_decode(bytes: Seq<u8>)
    requires
        decoding(bytes) is Some,
    ensures
        encodable(decoding(bytes)->Some_0),
        encoding(decoding(bytes)->Some_0) == bytes,
{
}

/// Two encodable record sets with the same encoding are the same record set.
pub proof fn lemma_encoding_injective(first: Seq<EntryView>, second: Seq<EntryView>)
    requires
        encodable(first),
        encodable(second),
        encoding(first) == encoding(second),
    ensures
        first == second,
{
    lemma_decode_encode(first);
    lemma_decode_encode(second);
}

/// `core::str::Utf8Error`: why bytes are not UTF-8. Nothing is said of it.
#[verifier::external_type_specification]
#[verifier::external_body]
pub struct ExUtf8Error(core::str::Utf8Error);

/// `core::str::from_utf8`: succeeds exactly on valid UTF-8, and then gives the
/// text whose UTF-8 form is the given bytes.
pub assume_specification[ core::str::from_utf8 ](v: &[u8]) -> (r: Result<
    &str,
    core::str::Utf8Error,
>)
    ensures
        r is Ok <==> valid_utf8(v@),
        r is Ok ==> encode_utf8(r->Ok_0@) == v@,
;

/// Appends `bytes` to `out`.
pub fn append(out: &mut Vec<u8>, bytes: &[u8])
    ensures
        final(out)@ == old(out)@ + bytes@,
{
    out.extend_from_slice(bytes);
    assert(out@ =~= old(out)@ + bytes@);
}

/// Appends the encoding of `text` to `out`.
pub fn write_text(text: &str, out: &mut Vec<u8>)
    ensures
        text_fits(text@),
        final(out)@ == old(out)@ + text_record(text@),
{
    let body = text.as_bytes();
    let prefix = u64_to_le_bytes(body.len() as u64);
    append(out, prefix.as_slice());
    append(out, body);
    assert(out@ =~= old(out)@ + text_record(text@));
}

/// Reads the text at the start of `input`, and says how many bytes it takes.
///
/// Fails where `input` is shorter than a length, shorter than the length
/// asks for, or holds bytes that are not UTF-8.
pub fn take_text(input: &[u8]) -> (r: Result<(String, usize), VaultError>)
    ensures
        match r {
            Ok((text, taken)) => read_text(input@) == Some((text@, taken as int)),
            Err(e) => e == VaultError::DeserializationFailure && read_text(input@) is None,
        },
{
    if input.len() < 8 {
        return Err(VaultError::DeserializationFailure);
    }
    let length = u64_from_le_bytes(slice_subrange(input, 0, 8));
    if length > (input.len() - 8) as u64 {
        return Err(VaultError::DeserializationFailure);
    }
    let end: usize = 8 + length as usize;
    let body = slice_subrange(input, 8, end);
    match core::str::from_utf8(body) {
        Ok(text) => {
            proof {
                encode_utf8_decode_utf8(text@);
            }
            Ok((text.to_owned(), end))
        },
        Err(_) => Err(VaultError::DeserializationFailure),
    }
}

/// Appends the encoding of `entry` to `out`.
pub fn write_entry(entry: &PasswordEntry, out: &mut Vec<u8>)
    ensures
        entry_fits(entry@),
        final(out)@ == old(out)@ + entry_record(entry@),
{
    write_text(entry.account.as_str(), out);
    serialize(&entry.password, out);
    assert(out@ =~= old(out)@ + entry_record(entry@));
}

/// Reads the entry at the start of `input`, and says how many bytes it takes.
pub fn take_entry(input: &[u8]) -> (r: Result<(PasswordEntry, usize), VaultError>)
    ensures
        match r {
            Ok((entry, taken)) => read_entry(input@) == Some((entry@, taken as int)),
            Err(e) => e == VaultError::DeserializationFailure && read_entry(input@) is None,
        },
{
    let (account, taken) = match take_text(input) {
        Ok(found) => found,
        Err(e) => {
            return Err(e);
        },
    };
    let rest = slice_subrange(input, taken, input.len());
    assert(rest@ =~= input@.skip(taken as int));
    match deserialize(rest) {
        Ok((password, more)) => Ok((PasswordEntry { account, password }, taken + more)),
        Err(e) => Err(e),
    }
}

/// The encodings of entries followed by one more are the encodings of the
/// entries followed by the encoding of that one.
pub proof fn lemma_entry_records_push(entries: Seq<EntryView>, entry: EntryView)
    ensures
        entry_records(entries.push(entry)) == entry_records(entries) + entry_record(entry),
    decreases entries.len(),
{
    let longer = entries.push(entry);
    if entries.len() == 0 {
        assert(longer.first() == entry);
        assert(longer.drop_first() =~= Seq::<EntryView>::empty());
        assert(entry_records(longer.drop_first()) =~= Seq::<u8>::empty());
        assert(entry_records(longer) =~= entry_record(entry));
        assert(entry_records(entries) + entry_record(entry) =~= entry_record(entry));
    } else {
        assert(longer.drop_first() =~= entries.drop_first().push(entry));
        lemma_entry_records_push(entries.drop_first(), entry);
        assert(entry_records(longer) =~= entry_records(entries) + entry_record(entry));
    }
}

/// Writes the record set as bytes. The bytes decode to the record set again.
pub fn encode(vault: &Vault) -> (bytes: Vec<u8>)
    ensures
        encodable(vault@),
        bytes@ == encoding(vault@),
        decoding(bytes@) == Some(vault@),
{
    let mut out: Vec<u8> = Vec::new();
    let count = u64_to_le_bytes(vault.entries.len() as u64);
    append(&mut out, count.as_slice());
    assert(out@ =~= length_prefix(vault@.len() as int));
    let mut i: usize = 0;
    while i < vault.entries.len()
        invariant
            i <= vault.entries.len(),
            entries_fit(vault@.take(i as int)),
            out@ == length_prefix(vault@.len() as int) + entry_records(vault@.take(i as int)),
        decreases vault.entries.len() - i,
    {
        let ghost written = vault@.take(i as int);
        write_entry(&vault.entries[i], &mut out);
        proof {
            lemma_entry_records_push(written, vault@[i as int]);
            assert(vault@.take(i + 1) =~= written.push(vault@[i as int]));
            assert(out@ =~= length_prefix(vault@.len() as int) + entry_records(
                vault@.take(i + 1),
            ));
        }
        i += 1;
    }
    assert(vault@.take(i as int) =~= vault@);
    proof {
        lemma_decode_encode(vault@);
    }
    out
}

/// Reading entries one at a time: an entry read after `before` joins it.
pub proof fn lemma_after_entry(
    before: Seq<EntryView>,
    taken: int,
    entry: EntryView,
    more: int,
    rest: Option<(Seq<EntryView>, int)>,
)
    ensures
        after(before, taken, after(seq![entry], more, rest)) == after(
            before.push(entry),
            taken + more,
            rest,
        ),
{
    if rest is Some {
        let others = rest->Some_0.0;
        assert(before + (seq![entry] + others) =~= before.push(entry) + others);
    }
}

/// Reads the record set that `bytes` encodes.
///
/// Fails with `DeserializationFailure` exactly where `bytes` is not the
/// encoding of any record set: where a length or a text is cut short, a text
/// is not UTF-8, or bytes follow the last entry.
pub fn decode(bytes: &[u8]) -> (r: Result<Vault, VaultError>)
    ensures
        match r {
            Ok(vault) => decoding(bytes@) == Some(vault@),
            Err(e) => e == VaultError::DeserializationFailure && decoding(bytes@) is None,
        },
{
    proof {
        lemma_decoding_reads(bytes@);
    }
    if bytes.len() < 8 {
        return Err(VaultError::DeserializationFailure);
    }
    let count = u64_from_le_bytes(slice_subrange(bytes, 0, 8));
    let body = slice_subrange(bytes, 8, bytes.len());
    assert(body@ =~= bytes@.skip(8));
    let mut entries: Vec<PasswordEntry> = Vec::new();
    let mut taken: usize = 0;
    let mut done: u64 = 0;
    assert(entry_views(entries@) + Seq::<EntryView>::empty() =~= Seq::<EntryView>::empty());
    assert(body@.skip(0) =~= body@);
    while done < count
        invariant
            done <= count,
            taken <= body@.len(),
            bytes@.len() >= 8,
            body@ == bytes@.skip(8),
            count == spec_u64_from_le_bytes(bytes@.subrange(0, 8)),
            decoding(bytes@) == read_all(bytes@),
            read_entries(body@, count as int) == after(
                entry_views(entries@),
                taken as int,
                read_entries(body@.skip(taken as int), count - done),
            ),
        decreases count - done,
    {
        let rest = slice_subrange(body, taken, body.len());
        assert(rest@ =~= body@.skip(taken as int));
        match take_entry(rest) {
            Ok((entry, more)) => {
                proof {
                    lemma_entry_record_read(rest@);
                    lemma_after_entry(
                        entry_views(entries@),
                        taken as int,
                        entry@,
                        more as int,
                        read_entries(rest@.skip(more as int), count - done - 1),
                    );
                    assert(rest@.skip(more as int) =~= body@.skip(taken + more));
                    assert(entry_views(entries@.push(entry)) =~= entry_views(entries@).push(
                        entry@,
                    ));
                }
                entries.push(entry);
                taken += more;
                done += 1;
            },
            Err(e) => {
                return Err(e);
            },
        }
    }
    if taken != body.len() {
        return Err(VaultError::DeserializationFailure);
    }
    assert(entry_views(entries@) + Seq::<EntryView>::empty() =~= entry_views(entries@));
    Ok(Vault { entries })
}

} // verus!
