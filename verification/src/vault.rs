//! The record set and its entries.

use crate::codec::read_text;
use crate::codec::take_text;
use crate::codec::text_fits;
use crate::codec::text_record;
use crate::codec::write_text;
use crate::error::VaultError;
use vstd::prelude::*;
use zeroize::Zeroizing;

verus! {

/// A text that is overwritten with zeros when it is dropped or replaced.
///
/// The text is kept in a `zeroize::Zeroizing<String>`, which does the
/// overwriting; nothing but [`Secret::new`] and [`Secret::as_str`] reaches it.
#[verifier::external_body]
pub struct Secret {
    inner: Zeroizing<String>,
}

/// The text that a [`Secret`] holds.
pub uninterp spec fn secret_text(secret: Secret) -> Seq<char>;

/// `Zeroizing::new`: moves `text` into a container that clears it on drop.
/// The container holds exactly `text`.
#[verifier::external_body]
fn seal_text(text: String) -> (secret: Secret)
    ensures
        secret_text(secret) == text@,
{
    Secret { inner: Zeroizing::new(text) }
}

/// `Deref::deref` of `Zeroizing<String>`: borrows the text that the container
/// holds.
#[verifier::external_body]
fn reveal_text(secret: &Secret) -> (text: &String)
    ensures
        text@ == secret_text(*secret),
{
    &secret.inner
}

impl View for Secret {
    type V = Seq<char>;

    open spec fn view(&self) -> Seq<char> {
        secret_text(*self)
    }
}

impl Secret {
    /// Takes ownership of `text`; from here on it is cleared when dropped.
    pub fn new(text: String) -> (secret: Secret)
        ensures
            secret@ == text@,
    {
        seal_text(text)
    }

    /// The text, borrowed for as long as the secret is.
    pub fn as_str(&self) -> (text: &str)
        ensures
            text@ == self@,
    {
        reveal_text(self).as_str()
    }
}

/// One credential: the name of an account and the secret that opens it.
pub struct PasswordEntry {
    pub account: String,
    pub password: Secret,
}

/// The record set: entries in the order in which they were added.
pub struct Vault {
    pub entries: Vec<PasswordEntry>,
}

/// What an entry holds, as two character sequences.
pub struct EntryView {
    pub account: Seq<char>,
    pub secret: Seq<char>,
}

impl View for PasswordEntry {
    type V = EntryView;

    open spec fn view(&self) -> EntryView {
        EntryView { account: self.account@, secret: self.password@ }
    }
}

/// What the entries hold, in their order.
pub open spec fn entry_views(entries: Seq<PasswordEntry>) -> Seq<EntryView> {
    Seq::new(entries.len(), |i: int| entries[i]@)
}

impl View for Vault {
    type V = Seq<EntryView>;

    open spec fn view(&self) -> Seq<EntryView> {
        entry_views(self.entries@)
    }
}

impl Vault {
    /// The empty record set, as a store holds it on first use.
    pub fn new() -> (vault: Vault)
        ensures
            vault@ == Seq::<EntryView>::empty(),
    {
        let vault = Vault { entries: Vec::new() };
        assert(vault@ =~= Seq::<EntryView>::empty());
        vault
    }

    /// The number of entries.
    pub fn len(&self) -> (n: usize)
        ensures
            n == self@.len(),
    {
        self.entries.len()
    }

    /// Adds an entry behind the last one.
    pub fn add(&mut self, account: String, password: Secret)
        ensures
            final(self)@ == old(self)@.push((EntryView { account: account@, secret: password@ })),
    {
        self.entries.push(PasswordEntry { account, password });
        assert(self@ =~= old(self)@.push((EntryView { account: account@, secret: password@ })));
    }

    /// Removes the entry with the given number, counted from 1 as the entries
    /// are shown, and returns it. The entries behind it move up by one. With
    /// any other number nothing changes and nothing is returned.
    pub fn remove(&mut self, number: usize) -> (removed: Option<PasswordEntry>)
        ensures
            1 <= number <= old(self)@.len() ==> removed is Some && removed->Some_0@ == old(
                self,
            )@[number - 1] && final(self)@ == old(self)@.remove(number - 1),
            !(1 <= number <= old(self)@.len()) ==> removed is None && final(self)@ == old(self)@,
    {
        if number > 0 && number <= self.entries.len() {
            let entry = self.entries.remove(number - 1);
            assert(self@ =~= old(self)@.remove(number - 1));
            Some(entry)
        } else {
            None
        }
    }
}

/// Appends the encoding of the secret's text to `out`.
pub fn serialize(value: &Secret, out: &mut Vec<u8>)
    ensures
        text_fits(value@),
        final(out)@ == old(out)@ + text_record(value@),
{
    write_text(value.as_str(), out);
}

/// Reads the text at the start of `input` into a secret, and says how many
/// bytes it takes.
///
/// Fails where `input` is shorter than a length, shorter than the length
/// asks for, or holds bytes that are not UTF-8.
pub fn deserialize(input: &[u8]) -> (r: Result<(Secret, usize), VaultError>)
    ensures
        match r {
            Ok((secret, taken)) => read_text(input@) == Some((secret@, taken as int)),
            Err(e) => e == VaultError::DeserializationFailure && read_text(input@) is None,
        },
{
    match take_text(input) {
        Ok((text, taken)) => Ok((Secret::new(text), taken)),
        Err(e) => Err(e),
    }
}

} // verus!
