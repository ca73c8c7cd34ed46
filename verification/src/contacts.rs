//! The contacts book: a name you chose, and what is behind it.
//!
//! Names are local and private; nothing here travels on the wire. On disk the book is sealed.

use vstd::prelude::*;
use vstd::string::*;
use vstd::utf8::*;

use crate::codec::{
    add_bool, add_str, add_u64, bool_back, bool_bytes, len_back, list_back, list_bytes, read_bool,
    read_len, read_list, read_text, read_u32, read_u64, reads_back, take_bool, take_len, take_str,
    take_u32, take_u64, text_back, text_bytes, u32_back, u64_back, varint, Garbled,
};
use crate::crypto::{discovery_key_ok, wipe};
use crate::identity::Identity;
use crate::names::{
    ascending, filed, filing_pairs, lifted, lifted_insert, lifted_remove, paired, zipped, NameMap,
};
use crate::onion::{
    address_fault, check_address, check_discovery_key, not_a_key, AddressError,
};
use crate::presence::Presence;
use crate::proto::utf8_len;
use crate::store::{read_sealed, seal, sealable, unsealed, StoreError, NONCE_LEN};
use crate::text::{
    chars, decimal, decimal_text, is_white, quoted, quoted_text, same, trim, trimmed, white,
};

verus! {

/// Key-derivation context for the contacts file.
pub const KEY_CONTEXT: &'static str = "murmure 2026 contacts book";

/// Longest accepted contact name, in bytes.
pub const MAX_CONTACT_NAME: usize = 64;

/// One filed friend.
#[derive(Clone, Debug, PartialEq, Eq)]
pub struct Contact {
    /// Their `.onion`, which is what we dial.
    pub address: String,
    /// Their service discovery key, which lets them read our descriptor.
    pub discovery: String,
    /// Where this contact stands on seeing, and being seen by, us.
    pub presence: Presence,
    /// The lowest id of a message they left that we have not accepted.
    pub seen: u64,
    /// This contact asked not to be written down.
    pub objects_to_history: bool,
    /// We asked *them* not to write us down.
    pub we_object: bool,
}

/// A contact by its values.
#[verifier::ext_equal]
pub struct ContactView {
    pub address: Seq<char>,
    pub discovery: Seq<char>,
    pub presence: Presence,
    pub seen: u64,
    pub objects_to_history: bool,
    pub we_object: bool,
}

impl View for Contact {
    type V = ContactView;

    open spec fn view(&self) -> ContactView {
        ContactView {
            address: self.address@,
            discovery: self.discovery@,
            presence: self.presence,
            seen: self.seen,
            objects_to_history: self.objects_to_history,
            we_object: self.we_object,
        }
    }
}

/// Why a name cannot be a contact's.
#[derive(Clone, Copy, Debug, PartialEq, Eq, Structural)]
pub enum ContactNameError {
    Empty,
    /// It is too long; its bytes.
    TooLong(usize),
    /// Commands start with a slash.
    Slash,
    Spaces,
}

/// A text holds white space.
pub open spec fn any_white(s: Seq<char>) -> bool {
    exists|i: int| 0 <= i < s.len() && white(#[trigger] s[i])
}

/// What is wrong with a contact's name, if anything is.
pub open spec fn contact_name_fault(name: Seq<char>) -> Option<ContactNameError> {
    if name.len() == 0 {
        Some(ContactNameError::Empty)
    } else if utf8_len(name) > MAX_CONTACT_NAME {
        Some(ContactNameError::TooLong(utf8_len(name) as usize))
    } else if name[0] == '/' {
        Some(ContactNameError::Slash)
    } else if any_white(name) {
        Some(ContactNameError::Spaces)
    } else {
        None
    }
}

impl ContactNameError {
    /// What the operator is told.
    pub open spec fn said(self, name: Seq<char>) -> Seq<char> {
        match self {
            ContactNameError::Empty => "a contact needs a name"@,
            ContactNameError::TooLong(n) => quoted_text(name) + " is "@ + decimal_text(n as nat)
                + " bytes, the limit is 64"@,
            ContactNameError::Slash => "a contact name cannot start with '/'"@,
            ContactNameError::Spaces => "a contact name cannot contain spaces"@,
        }
    }

    /// Say what is wrong with the name.
    pub fn describe(&self, name: &str) -> (r: String)
        ensures
            r@ == self.said(name@),
    {
        match self {
            ContactNameError::Empty => "a contact needs a name".to_owned(),
            ContactNameError::TooLong(n) => {
                let mut s = quoted(name);
                s.append(" is ");
                s.append(decimal(*n as u128).as_str());
                s.append(" bytes, the limit is 64");
                s
            },
            ContactNameError::Slash => "a contact name cannot start with '/'".to_owned(),
            ContactNameError::Spaces => "a contact name cannot contain spaces".to_owned(),
        }
    }
}

/// Reject names that would be confusing or unusable.
pub fn check_name(name: &str) -> (r: Result<(), ContactNameError>)
    ensures
        match r {
            Ok(_) => contact_name_fault(name@) is None,
            Err(e) => contact_name_fault(name@) == Some(e),
        },
{
    let cs = chars(name);
    if cs.len() == 0 {
        return Err(ContactNameError::Empty);
    }
    let n: usize = name.as_bytes().len();
    if n > MAX_CONTACT_NAME {
        return Err(ContactNameError::TooLong(n));
    }
    if cs[0] == '/' {
        return Err(ContactNameError::Slash);
    }
    let mut i: usize = 0;
    while i < cs.len()
        invariant
            i <= cs@.len(),
            cs@ == name@,
            cs@.len() > 0,
            cs@[0] != '/',
            utf8_len(name@) <= MAX_CONTACT_NAME,
            forall|j: int| 0 <= j < i ==> !white(#[trigger] cs@[j]),
        decreases cs@.len() - i,
    {
        if is_white(cs[i]) {
            assert(white(name@[i as int]));
            return Err(ContactNameError::Spaces);
        }
        i = i + 1;
    }
    assert(!any_white(name@));
    Ok(())
}

// --- on disk --------------------------------------------------------------------------

/// Where a presence setting stands in the list of them.
pub open spec fn presence_index(p: Presence) -> nat {
    match p {
        Presence::Off => 0,
        Presence::WeAsked => 1,
        Presence::TheyAsked => 2,
        Presence::On => 3,
    }
}

/// How a presence setting is read.
pub open spec fn read_presence(b: Seq<u8>) -> Result<(Presence, Seq<u8>), Garbled> {
    match read_u32(b) {
        Err(e) => Err(e),
        Ok((n, rest)) => if n == 0 {
            Ok((Presence::Off, rest))
        } else if n == 1 {
            Ok((Presence::WeAsked, rest))
        } else if n == 2 {
            Ok((Presence::TheyAsked, rest))
        } else if n == 3 {
            Ok((Presence::On, rest))
        } else {
            Err(Garbled::Variant)
        },
    }
}

/// A name and the contact under it.
pub type EntryView = (Seq<char>, ContactView);

/// The bytes of one entry of the book.
pub open spec fn entry_bytes(e: EntryView) -> Seq<u8> {
    text_bytes(e.0) + (text_bytes(e.1.address) + (text_bytes(e.1.discovery) + (varint(
        presence_index(e.1.presence),
    ) + (varint(e.1.seen as nat) + (bool_bytes(e.1.objects_to_history) + bool_bytes(
        e.1.we_object,
    ))))))
}

/// How the numbers and flags of a contact are read, behind its texts.
pub open spec fn read_flags(name: Seq<char>, address: Seq<char>, discovery: Seq<char>, b: Seq<u8>) -> Result<(EntryView, Seq<u8>), Garbled> {
    match read_presence(b) {
        Err(e) => Err(e),
        Ok((presence, b)) => match read_u64(b) {
            Err(e) => Err(e),
            Ok((seen, b)) => match read_bool(b) {
                Err(e) => Err(e),
                Ok((objects_to_history, b)) => match read_bool(b) {
                    Err(e) => Err(e),
                    Ok((we_object, b)) => Ok(
                        (
                            (
                                name,
                                ContactView {
                                    address,
                                    discovery,
                                    presence,
                                    seen: seen as u64,
                                    objects_to_history,
                                    we_object,
                                },
                            ),
                            b,
                        ),
                    ),
                },
            },
        },
    }
}

/// How one entry of the book is read.
pub open spec fn read_entry(b: Seq<u8>) -> Result<(EntryView, Seq<u8>), Garbled> {
    match read_text(b) {
        Err(e) => Err(e),
        Ok((name, b)) => match read_text(b) {
            Err(e) => Err(e),
            Ok((address, b)) => match read_text(b) {
                Err(e) => Err(e),
                Ok((discovery, b)) => read_flags(name, address, discovery, b),
            },
        },
    }
}

/// The writer of one entry.
pub open spec fn entry_writer() -> spec_fn(EntryView) -> Seq<u8> {
    |e: EntryView| entry_bytes(e)
}

/// The reader of one entry.
pub open spec fn entry_reader() -> spec_fn(Seq<u8>) -> Result<(EntryView, Seq<u8>), Garbled> {
    |b: Seq<u8>| read_entry(b)
}

/// The bytes of a book: its entries behind their number.
pub open spec fn book_bytes(entries: Seq<EntryView>) -> Seq<u8> {
    varint(entries.len()) + list_bytes(entries, entry_writer())
}

/// How a book is read. Bytes behind it are not looked at.
pub open spec fn read_book(b: Seq<u8>) -> Result<Seq<EntryView>, Garbled> {
    match read_len(b) {
        Err(e) => Err(e),
        Ok((n, rest)) => match read_list(rest, n, entry_reader()) {
            Err(e) => Err(e),
            Ok((entries, _)) => Ok(entries),
        },
    }
}

/// Why a book cannot be opened.
#[derive(Clone, Copy, Debug, PartialEq, Eq, Structural)]
pub enum BookError {
    /// The seal does not open.
    Sealed(StoreError),
    /// What is under the seal is no book of this version.
    Unreadable(Garbled),
}

/// Which of the sealed files is meant.
#[derive(Clone, Copy, Debug, PartialEq, Eq, Structural)]
pub enum Sealed {
    Contacts,
    Outbox,
    History,
}

/// What to do about a file that another version wrote.
pub open spec fn older_version(which: Sealed) -> Seq<char> {
    match which {
        Sealed::Contacts =>
            "It was written by an older murmure — a contact now carries a service discovery key, a presence setting, a delivery mark and a history objection. Delete the file and /add your contacts again; nothing else is lost, and the addresses and keys are not secrets."@,
        Sealed::Outbox =>
            "It was written by an older murmure. Delete the file to start a new one — anything still waiting in it is lost."@,
        Sealed::History =>
            "It was written by an older murmure. Delete the file to start a new one — what is in it is lost, which is the same thing /history off would have done."@,
    }
}

/// What a file is called.
pub open spec fn sealed_name(which: Sealed) -> Seq<char> {
    match which {
        Sealed::Contacts => "the contacts book at "@,
        Sealed::Outbox => "the outbox at "@,
        Sealed::History => "the history at "@,
    }
}

impl BookError {
    /// What the operator is told of the file at `path`.
    pub open spec fn said(self, which: Sealed, path: Seq<char>) -> Seq<char> {
        match self {
            BookError::Sealed(e) => "opening "@ + path + ": "@ + e.said(),
            BookError::Unreadable(e) => sealed_name(which) + path + " is unreadable: "@ + e.said()
                + "\n"@ + older_version(which),
        }
    }

    /// Say why the file at `path` cannot be opened.
    pub fn describe(&self, which: Sealed, path: &str) -> (r: String)
        ensures
            r@ == self.said(which, path@),
    {
        match self {
            BookError::Sealed(e) => {
                let mut s = "opening ".to_owned();
                s.append(path);
                s.append(": ");
                s.append(e.describe().as_str());
                s
            },
            BookError::Unreadable(e) => {
                let (name, advice) = match which {
                    Sealed::Contacts => (
                        "the contacts book at ",
                        "It was written by an older murmure — a contact now carries a service discovery key, a presence setting, a delivery mark and a history objection. Delete the file and /add your contacts again; nothing else is lost, and the addresses and keys are not secrets.",
                    ),
                    Sealed::Outbox => (
                        "the outbox at ",
                        "It was written by an older murmure. Delete the file to start a new one — anything still waiting in it is lost.",
                    ),
                    Sealed::History => (
                        "the history at ",
                        "It was written by an older murmure. Delete the file to start a new one — what is in it is lost, which is the same thing /history off would have done.",
                    ),
                };
                let mut s = name.to_owned();
                s.append(path);
                s.append(" is unreadable: ");
                s.append(e.describe().as_str());
                s.append("\n");
                s.append(advice);
                s
            },
        }
    }
}

/// What a file holds, or why it cannot be had.
pub open spec fn plaintext_of(key: Seq<u8>, stored: Seq<u8>) -> Result<Seq<u8>, StoreError> {
    match unsealed(key, stored) {
        Some(p) => Ok(p),
        None => if stored.len() < NONCE_LEN {
            Err(StoreError::TooShort(stored.len() as usize))
        } else {
            Err(StoreError::Refused)
        },
    }
}

/// A name-to-contact book.
#[derive(Debug)]
pub struct Contacts {
    pub filed: NameMap<Contact>,
    /// Whether the book has changed since it was last sealed.
    pub unsaved: bool,
}

/// Contacts by their values.
pub open spec fn contact_views(s: Seq<Contact>) -> Seq<ContactView> {
    s.map_values(contact_view())
}

/// What is seen of a contact.
pub open spec fn contact_view() -> spec_fn(Contact) -> ContactView {
    |c: Contact| c@
}

/// The first name in order whose contact has this address.
pub open spec fn name_for(entries: Seq<EntryView>, address: Seq<char>) -> Option<Seq<char>>
    decreases entries.len(),
{
    if entries.len() == 0 {
        None
    } else if entries[0].1.address == address {
        Some(entries[0].0)
    } else {
        name_for(entries.drop_first(), address)
    }
}

/// Why a contact was not filed.
#[derive(Clone, Copy, Debug, PartialEq, Eq, Structural)]
pub enum AddError {
    Name(ContactNameError),
    Address(AddressError),
    /// The second half is no discovery key.
    Key,
    /// The name is already someone else's.
    Taken,
}

/// What keeps a contact from being filed, if anything does.
pub open spec fn add_fault(
    book: Map<Seq<char>, ContactView>,
    name: Seq<char>,
    address: Seq<char>,
    discovery: Seq<char>,
) -> Option<AddError> {
    if contact_name_fault(name) is Some {
        Some(AddError::Name(contact_name_fault(name)->0))
    } else if address_fault(address) is Some {
        Some(AddError::Address(address_fault(address)->0))
    } else if !discovery_key_ok(discovery) {
        Some(AddError::Key)
    } else if book.contains_key(name) && (book[name].address != address || book[name].discovery
        != discovery) {
        Some(AddError::Taken)
    } else {
        None
    }
}

/// A contact as it is first filed.
pub open spec fn fresh(address: Seq<char>, discovery: Seq<char>) -> ContactView {
    ContactView {
        address,
        discovery,
        presence: Presence::Off,
        seen: 0,
        objects_to_history: false,
        we_object: false,
    }
}

/// The book once these details are filed under a name. Someone already filed under them stays
/// as they are: what they agreed to, and what we have from them, is kept.
pub open spec fn after_filing(
    book: Map<Seq<char>, ContactView>,
    name: Seq<char>,
    address: Seq<char>,
    discovery: Seq<char>,
) -> Map<Seq<char>, ContactView> {
    if book.contains_key(name) {
        book
    } else {
        book.insert(name, fresh(address, discovery))
    }
}

impl AddError {
    /// What the operator is told.
    pub open spec fn said(
        self,
        name: Seq<char>,
        address: Seq<char>,
        discovery: Seq<char>,
    ) -> Seq<char> {
        match self {
            AddError::Name(e) => e.said(name),
            AddError::Address(e) => e.said(address),
            AddError::Key => not_a_key(discovery),
            AddError::Taken => name
                + " is already someone else's name in this book.\nRemove it first if you really mean to point it at a new address:\n  /forget "@
                + name,
        }
    }

    /// Say why nothing was filed. The texts are those that were typed, without white space
    /// around them.
    pub fn describe(&self, name: &str, address: &str, discovery: &str) -> (r: String)
        ensures
            r@ == self.said(name@, address@, discovery@),
    {
        match self {
            AddError::Name(e) => e.describe(name),
            AddError::Address(e) => e.describe(address),
            AddError::Key => match check_discovery_key(discovery) {
                Err(text) => text,
                Ok(_) => {
                    let mut s = discovery.to_owned();
                    s.append(" is not a service discovery key");
                    assert(s@ + Seq::<char>::empty() =~= s@);
                    s
                },
            },
            AddError::Taken => {
                let mut s = name.to_owned();
                s.append(
                    " is already someone else's name in this book.\nRemove it first if you really mean to point it at a new address:\n  /forget ",
                );
                s.append(name);
                s
            },
        }
    }
}

/// The key that the contacts book is sealed under.
pub fn book_key(identity: &Identity) -> (r: [u8; 32])
    ensures
        r@ == crate::crypto::blake3_derived(KEY_CONTEXT@, identity.seed()),
{
    identity.derive_key(KEY_CONTEXT)
}

impl Contacts {
    /// The names in order stand as they should.
    pub open spec fn wf(&self) -> bool {
        self.filed.wf()
    }

    /// Every contact by name.
    pub open spec fn book(&self) -> Map<Seq<char>, ContactView> {
        paired(self.filed.names(), contact_views(self.filed.vals@))
    }

    /// Every contact, name first, in order.
    pub open spec fn entries(&self) -> Seq<EntryView> {
        zipped(self.filed.names(), contact_views(self.filed.vals@))
    }
}

/// An entry that a program can hold.
pub open spec fn entry_real(e: EntryView) -> bool {
    utf8_len(e.0) <= usize::MAX && utf8_len(e.1.address) <= usize::MAX && utf8_len(e.1.discovery)
        <= usize::MAX
}

/// The numbers and flags of a contact, with something behind them.
spec fn flags_then(c: ContactView, rest: Seq<u8>) -> Seq<u8> {
    varint(presence_index(c.presence)) + (varint(c.seen as nat) + (bool_bytes(c.objects_to_history)
        + (bool_bytes(c.we_object) + rest)))
}

proof fn entry_layout(e: EntryView, rest: Seq<u8>)
    ensures
        entry_bytes(e) + rest == text_bytes(e.0) + (text_bytes(e.1.address) + (text_bytes(
            e.1.discovery,
        ) + flags_then(e.1, rest))),
{
    assert(entry_bytes(e) + rest =~= text_bytes(e.0) + (text_bytes(e.1.address) + (text_bytes(
        e.1.discovery,
    ) + flags_then(e.1, rest))));
}

proof fn flags_back(e: EntryView, rest: Seq<u8>)
    ensures
        read_flags(e.0, e.1.address, e.1.discovery, flags_then(e.1, rest)) == Ok::<_, Garbled>((e, rest)),
{
    let t1 = bool_bytes(e.1.we_object) + rest;
    let t2 = bool_bytes(e.1.objects_to_history) + t1;
    let t3 = varint(e.1.seen as nat) + t2;
    u32_back(presence_index(e.1.presence) as u32, t3);
    u64_back(e.1.seen, t2);
    bool_back(e.1.objects_to_history, t1);
    bool_back(e.1.we_object, rest);
}

proof fn entry_back(e: EntryView, rest: Seq<u8>)
    requires
        entry_real(e),
    ensures
        read_entry(entry_bytes(e) + rest) == Ok::<_, Garbled>((e, rest)),
{
    let t4 = flags_then(e.1, rest);
    let t5 = text_bytes(e.1.discovery) + t4;
    entry_layout(e, rest);
    text_back(e.0, text_bytes(e.1.address) + t5);
    text_back(e.1.address, t5);
    text_back(e.1.discovery, t4);
    flags_back(e, rest);
}

/// A book comes back from its bytes as it was.
pub proof fn book_comes_back(entries: Seq<EntryView>)
    requires
        entries.len() <= usize::MAX,
        forall|i: int| 0 <= i < entries.len() ==> entry_real(#[trigger] entries[i]),
    ensures
        read_book(book_bytes(entries)) == Ok::<_, Garbled>(entries),
{
    let list = list_bytes(entries, entry_writer());
    len_back(entries.len() as usize, list);
    assert forall|i: int, r: Seq<u8>| 0 <= i < entries.len() implies #[trigger] entry_reader()(
        entry_writer()(entries[i]) + r,
    ) == Ok::<_, Garbled>((entries[i], r)) by {
        entry_back(entries[i], r);
    }
    assert(reads_back(entries, entry_writer(), entry_reader()));
    list_back(entries, entry_writer(), entry_reader(), Seq::empty());
    assert(list + Seq::<u8>::empty() =~= list);
}

fn add_entry(out: &mut Vec<u8>, name: &str, c: &Contact)
    ensures
        final(out)@ == old(out)@ + entry_bytes((name@, c@)),
        entry_real((name@, c@)),
{
    let n1: usize = name.as_bytes().len();
    let n2: usize = c.address.as_str().as_bytes().len();
    let n3: usize = c.discovery.as_str().as_bytes().len();
    proof {
        assert(n1 == utf8_len(name@) && n2 == utf8_len(c.address@) && n3 == utf8_len(
            c.discovery@,
        ));
    }
    add_str(out, name);
    add_str(out, c.address.as_str());
    add_str(out, c.discovery.as_str());
    add_u64(
        out,
        match c.presence {
            Presence::Off => 0,
            Presence::WeAsked => 1,
            Presence::TheyAsked => 2,
            Presence::On => 3,
        },
    );
    add_u64(out, c.seen);
    add_bool(out, c.objects_to_history);
    add_bool(out, c.we_object);
    proof {
        one_behind_the_other(
            old(out)@,
            text_bytes(name@),
            text_bytes(c.address@),
            text_bytes(c.discovery@),
            varint(presence_index(c.presence)),
            varint(c.seen as nat),
            bool_bytes(c.objects_to_history),
            bool_bytes(c.we_object),
        );
    }
}

proof fn one_behind_the_other(
    o: Seq<u8>,
    a: Seq<u8>,
    b: Seq<u8>,
    c: Seq<u8>,
    d: Seq<u8>,
    e: Seq<u8>,
    f: Seq<u8>,
    g: Seq<u8>,
)
    ensures
        o + a + b + c + d + e + f + g == o + (a + (b + (c + (d + (e + (f + g)))))),
{
    assert(o + a + b + c + d + e + f + g =~= o + (a + (b + (c + (d + (e + (f + g)))))));
}

fn take_presence(b: &[u8]) -> (r: Result<(Presence, &[u8]), Garbled>)
    ensures
        match r {
            Ok((p, rest)) => read_presence(b@) == Ok::<_, Garbled>((p, rest@)),
            Err(e) => read_presence(b@) is Err && read_presence(b@)->Err_0 == e,
        },
{
    match take_u32(b) {
        Err(e) => Err(e),
        Ok((n, rest)) => if n == 0 {
            Ok((Presence::Off, rest))
        } else if n == 1 {
            Ok((Presence::WeAsked, rest))
        } else if n == 2 {
            Ok((Presence::TheyAsked, rest))
        } else if n == 3 {
            Ok((Presence::On, rest))
        } else {
            Err(Garbled::Variant)
        },
    }
}

fn take_entry(b: &[u8]) -> (r: Result<((String, Contact), &[u8]), Garbled>)
    ensures
        match r {
            Ok((e, rest)) => read_entry(b@) == Ok::<_, Garbled>(((e.0@, e.1@), rest@)),
            Err(e) => read_entry(b@) is Err && read_entry(b@)->Err_0 == e,
        },
{
    match take_str(b) {
        Err(e) => Err(e),
        Ok((name, b)) => match take_str(b) {
            Err(e) => Err(e),
            Ok((address, b)) => match take_str(b) {
                Err(e) => Err(e),
                Ok((discovery, b)) => match take_presence(b) {
                    Err(e) => Err(e),
                    Ok((presence, b)) => match take_u64(b) {
                        Err(e) => Err(e),
                        Ok((seen, b)) => match take_bool(b) {
                            Err(e) => Err(e),
                            Ok((objects_to_history, b)) => match take_bool(b) {
                                Err(e) => Err(e),
                                Ok((we_object, b)) => Ok(
                                    (
                                        (
                                            name,
                                            Contact {
                                                address,
                                                discovery,
                                                presence,
                                                seen,
                                                objects_to_history,
                                                we_object,
                                            },
                                        ),
                                        b,
                                    ),
                                ),
                            },
                        },
                    },
                },
            },
        },
    }
}

/// Read a book.
fn decode_book(b: &[u8]) -> (r: Result<NameMap<Contact>, Garbled>)
    ensures
        match r {
            Ok(m) => {
                &&& m.wf()
                &&& read_book(b@) is Ok
                &&& paired(m.names(), contact_views(m.vals@)) == filed(read_book(b@)->Ok_0)
            },
            Err(e) => read_book(b@) is Err && read_book(b@)->Err_0 == e,
        },
{
    let (n, first) = match take_len(b) {
        Ok(x) => x,
        Err(e) => {
            return Err(e);
        },
    };
    let mut rest = first;
    let mut m: NameMap<Contact> = NameMap::new();
    let ghost mut done: Seq<EntryView> = Seq::empty();
    let ghost all = read_list(first@, n as nat, entry_reader());
    let mut i: usize = 0;
    proof {
        assert(paired(m.names(), contact_views(m.vals@)) =~= Map::empty());
        assert(crate::codec::after(done, all) =~= all) by {
            if all is Ok {
                assert(done + (all->Ok_0).0 =~= (all->Ok_0).0);
            }
        }
    }
    while i < n
        invariant
            i <= n,
            read_len(b@) == Ok::<_, Garbled>((n as nat, first@)),
            all == read_list(first@, n as nat, entry_reader()),
            all == crate::codec::after(done, read_list(rest@, (n - i) as nat, entry_reader())),
            m.wf(),
            paired(m.names(), contact_views(m.vals@)) == filed(done),
        decreases n - i,
    {
        match take_entry(rest) {
            Err(e) => {
                assert(entry_reader()(rest@) is Err && entry_reader()(rest@)->Err_0 == e);
                return Err(e);
            },
            Ok(((name, c), more)) => {
                let ghost e: EntryView = (name@, c@);
                proof {
                    assert(entry_reader()(rest@) == Ok::<_, Garbled>((e, more@)));
                    let tail = read_list(more@, (n - i - 1) as nat, entry_reader());
                    if tail is Ok {
                        assert(done + (seq![e] + (tail->Ok_0).0) =~= done.push(e) + (tail->Ok_0).0);
                    }
                    assert(done.push(e).drop_last() =~= done);
                }
                let ghost m0 = m;
                m.put(name, c);
                proof {
                    lifted_insert(m0, m, e.0, c, contact_view());
                    done = done.push(e);
                }
                rest = more;
            },
        }
        i = i + 1;
    }
    assert(done + Seq::<EntryView>::empty() =~= done);
    Ok(m)
}

impl Contacts {
    /// Open the book that a file held, or start an empty one where there was no file.
    pub fn open(stored: Option<&[u8]>, key: &[u8; 32]) -> (r: Result<Contacts, BookError>)
        ensures
            match stored {
                None => r is Ok && r->Ok_0.book() == Map::<Seq<char>, ContactView>::empty(),
                Some(s) => match plaintext_of(key@, s@) {
                    Err(e) => r is Err && r->Err_0 == BookError::Sealed(e),
                    Ok(p) => match read_book(p) {
                        Err(e) => r is Err && r->Err_0 == BookError::Unreadable(e),
                        Ok(entries) => r is Ok && r->Ok_0.book() == filed(entries),
                    },
                },
            },
            r is Ok ==> r->Ok_0.wf() && !r->Ok_0.unsaved,
    {
        match read_sealed(stored, key) {
            Err(e) => Err(BookError::Sealed(e)),
            Ok(None) => {
                let book = Contacts { filed: NameMap::new(), unsaved: false };
                assert(book.book() =~= Map::<Seq<char>, ContactView>::empty());
                Ok(book)
            },
            Ok(Some(plaintext)) => {
                let mut plaintext = plaintext;
                let m = decode_book(plaintext.as_slice());
                wipe(&mut plaintext);
                match m {
                    Err(e) => Err(BookError::Unreadable(e)),
                    Ok(filed) => Ok(Contacts { filed, unsaved: false }),
                }
            },
        }
    }

    /// The bytes to write to disk: what is under the seal is the book.
    pub fn save(&mut self, key: &[u8; 32]) -> (r: Result<Vec<u8>, StoreError>)
        requires
            old(self).wf(),
        ensures
            final(self).filed == old(self).filed,
            final(self).unsaved == (old(self).unsaved && r is Err),
            r is Ok <==> sealable(book_bytes(old(self).entries())),
            r is Err ==> r->Err_0 == StoreError::Sealing,
            r is Ok ==> unsealed(key@, r->Ok_0@) == Some(book_bytes(old(self).entries())),
            r is Ok ==> read_book(book_bytes(old(self).entries())) == Ok::<_, Garbled>(old(self).entries()),
            filed(old(self).entries()) == old(self).book(),
    {
        let mut out: Vec<u8> = Vec::new();
        let n: usize = self.filed.len();
        let ghost es = self.entries();
        add_u64(&mut out, n as u64);
        let ghost start = out@;
        let mut i: usize = 0;
        assert(es.skip(0) =~= es);
        while i < n
            invariant
                i <= n,
                n == es.len(),
                self.wf(),
                es == self.entries(),
                forall|j: int| 0 <= j < i ==> entry_real(#[trigger] es[j]),
                out@ + list_bytes(es.skip(i as int), entry_writer()) == start + list_bytes(
                    es,
                    entry_writer(),
                ),
            decreases n - i,
        {
            let ghost before = out@;
            add_entry(&mut out, self.filed.keys[i].as_str(), &self.filed.vals[i]);
            proof {
                let t = es.skip(i as int);
                assert(t.drop_first() =~= es.skip(i + 1));
                assert(t[0] == es[i as int]);
                assert(es[i as int] == (
                    self.filed.keys@[i as int]@,
                    self.filed.vals@[i as int]@,
                ));
                assert(out@ + list_bytes(t.drop_first(), entry_writer()) =~= before + list_bytes(
                    t,
                    entry_writer(),
                ));
            }
            i = i + 1;
        }
        proof {
            assert(list_bytes(es.skip(i as int), entry_writer()) =~= Seq::empty());
            assert(out@ =~= book_bytes(es));
            book_comes_back(es);
            filing_pairs(self.filed.names(), contact_views(self.filed.vals@));
        }
        let r = seal(key, out.as_slice());
        wipe(&mut out);
        if r.is_ok() {
            self.unsaved = false;
        }
        r
    }

    /// Put a contact in place of the one at a place.
    fn replace(&mut self, i: usize, c: Contact)
        requires
            old(self).wf(),
            i < old(self).filed.names().len(),
        ensures
            final(self).wf(),
            final(self).filed.names() == old(self).filed.names(),
            final(self).book() == old(self).book().insert(old(self).filed.names()[i as int], c@),
            final(self).unsaved,
    {
        let ghost ks = self.filed.names();
        let ghost vs = self.filed.vals@;
        self.filed.vals.set(i, c);
        self.unsaved = true;
        proof {
            assert(self.filed.names() =~= ks);
            assert(contact_views(self.filed.vals@) =~= contact_views(vs).update(i as int, c@));
            crate::names::replaced(ks, contact_views(vs), i as int, c@);
        }
    }

    /// File a contact. Filing someone again under the details they already have changes
    /// nothing about them.
    pub fn add(&mut self, name: &str, address: &str, discovery: &str) -> (r: Result<(), AddError>)
        requires
            old(self).wf(),
        ensures
            final(self).wf(),
            match r {
                Ok(_) => {
                    &&& add_fault(
                        old(self).book(),
                        trim(name@),
                        trim(address@),
                        trim(discovery@),
                    ) is None
                    &&& final(self).book() == after_filing(
                        old(self).book(),
                        trim(name@),
                        trim(address@),
                        trim(discovery@),
                    )
                    &&& final(self).unsaved
                },
                Err(e) => {
                    &&& add_fault(
                        old(self).book(),
                        trim(name@),
                        trim(address@),
                        trim(discovery@),
                    ) == Some(e)
                    &&& *final(self) == *old(self)
                },
            },
    {
        let name = trimmed(name);
        let entry = Contact {
            address: trimmed(address),
            discovery: trimmed(discovery),
            presence: Presence::Off,
            seen: 0,
            objects_to_history: false,
            we_object: false,
        };
        match check_name(name.as_str()) {
            Err(e) => {
                return Err(AddError::Name(e));
            },
            Ok(_) => {},
        }
        match check_address(entry.address.as_str()) {
            Err(e) => {
                return Err(AddError::Address(e));
            },
            Ok(_) => {},
        }
        match check_discovery_key(entry.discovery.as_str()) {
            Err(_) => {
                return Err(AddError::Key);
            },
            Ok(_) => {},
        }
        proof {
            lifted(self.filed, contact_view());
        }
        match self.filed.find(name.as_str()) {
            Ok(i) => {
                let there = &self.filed.vals[i];
                if !same(there.address.as_str(), entry.address.as_str()) || !same(
                    there.discovery.as_str(),
                    entry.discovery.as_str(),
                ) {
                    return Err(AddError::Taken);
                }
            },
            Err(_) => {
                let ghost m0 = self.filed;
                let ghost n = name@;
                self.filed.put(name, entry);
                proof {
                    lifted_insert(m0, self.filed, n, entry, contact_view());
                }
            },
        }
        self.unsaved = true;
        Ok(())
    }

    /// Drop a contact. Says whether anything was there.
    pub fn remove(&mut self, name: &str) -> (r: bool)
        requires
            old(self).wf(),
        ensures
            final(self).wf(),
            r == old(self).book().contains_key(trim(name@)),
            final(self).book() == old(self).book().remove(trim(name@)),
            final(self).unsaved == (old(self).unsaved || r),
            !r ==> *final(self) == *old(self),
    {
        let name = trimmed(name);
        let ghost m0 = self.filed;
        proof {
            lifted(m0, contact_view());
        }
        let gone = self.filed.remove(name.as_str());
        proof {
            lifted_remove(m0, self.filed, name@, contact_view());
        }
        match gone {
            Some(_) => {
                self.unsaved = true;
                true
            },
            None => false,
        }
    }

    /// The address filed under `name`.
    pub fn address_of(&self, name: &str) -> (r: Option<String>)
        requires
            self.wf(),
        ensures
            match r {
                Some(a) => self.book().contains_key(trim(name@)) && a@ == self.book()[trim(
                    name@,
                )].address,
                None => !self.book().contains_key(trim(name@)),
            },
    {
        proof {
            lifted(self.filed, contact_view());
        }
        match self.filed.find(trimmed(name).as_str()) {
            Ok(i) => Some(self.filed.vals[i].address.clone()),
            Err(_) => None,
        }
    }

    /// The name filed for this address, if any.
    pub fn name_of(&self, address: &str) -> (r: Option<String>)
        requires
            self.wf(),
        ensures
            match r {
                Some(n) => name_for(self.entries(), trim(address@)) == Some(n@),
                None => name_for(self.entries(), trim(address@)) is None,
            },
    {
        let wanted = trimmed(address);
        let ghost es = self.entries();
        let mut i: usize = 0;
        assert(es.skip(0) =~= es);
        while i < self.filed.len()
            invariant
                i <= es.len(),
                self.wf(),
                es == self.entries(),
                wanted@ == trim(address@),
                name_for(es, wanted@) == name_for(es.skip(i as int), wanted@),
            decreases es.len() - i,
        {
            let ghost t = es.skip(i as int);
            proof {
                assert(t[0] == es[i as int]);
                assert(es[i as int] == (
                    self.filed.keys@[i as int]@,
                    self.filed.vals@[i as int]@,
                ));
                assert(t.drop_first() =~= es.skip(i + 1));
            }
            if same(self.filed.vals[i].address.as_str(), wanted.as_str()) {
                return Some(self.filed.keys[i].clone());
            }
            i = i + 1;
        }
        None
    }

    /// Where this contact stands on presence. Unknown names have agreed to nothing.
    pub fn presence_of(&self, name: &str) -> (r: Presence)
        requires
            self.wf(),
        ensures
            r == if self.book().contains_key(trim(name@)) {
                self.book()[trim(name@)].presence
            } else {
                Presence::Off
            },
    {
        proof {
            lifted(self.filed, contact_view());
        }
        match self.filed.find(trimmed(name).as_str()) {
            Ok(i) => self.filed.vals[i].presence,
            Err(_) => Presence::Off,
        }
    }

    /// The contact filed under a name, and where.
    fn look_up(&self, name: &str) -> (r: Option<(usize, Contact)>)
        requires
            self.wf(),
        ensures
            match r {
                Some((i, c)) => {
                    &&& i < self.filed.names().len()
                    &&& self.filed.names()[i as int] == trim(name@)
                    &&& self.book().contains_key(trim(name@))
                    &&& c@ == self.book()[trim(name@)]
                },
                None => !self.book().contains_key(trim(name@)),
            },
    {
        proof {
            lifted(self.filed, contact_view());
        }
        match self.filed.find(trimmed(name).as_str()) {
            Ok(i) => {
                let c = &self.filed.vals[i];
                Some(
                    (
                        i,
                        Contact {
                            address: c.address.clone(),
                            discovery: c.discovery.clone(),
                            presence: c.presence,
                            seen: c.seen,
                            objects_to_history: c.objects_to_history,
                            we_object: c.we_object,
                        },
                    ),
                )
            },
            Err(_) => None,
        }
    }

    /// Move a contact to a new presence state. Says whether there was a contact to move.
    pub fn set_presence(&mut self, name: &str, presence: Presence) -> (r: bool)
        requires
            old(self).wf(),
        ensures
            final(self).wf(),
            r == old(self).book().contains_key(trim(name@)),
            final(self).book() == if r {
                old(self).book().insert(
                    trim(name@),
                    ContactView { presence, ..old(self).book()[trim(name@)] },
                )
            } else {
                old(self).book()
            },
            final(self).unsaved == (old(self).unsaved || (r && old(self).book()[trim(
                name@,
            )].presence != presence)),
    {
        match self.look_up(name) {
            None => false,
            Some((i, c)) => {
                if c.presence == presence {
                    assert(self.book() =~= self.book().insert(
                        trim(name@),
                        ContactView { presence, ..self.book()[trim(name@)] },
                    ));
                    return true;
                }
                self.replace(i, Contact { presence, ..c });
                true
            },
        }
    }

    /// Record whether *we* object to this contact writing us down.
    pub fn set_our_objection(&mut self, name: &str, objects: bool) -> (r: bool)
        requires
            old(self).wf(),
        ensures
            final(self).wf(),
            r == old(self).book().contains_key(trim(name@)),
            final(self).book() == if r {
                old(self).book().insert(
                    trim(name@),
                    ContactView { we_object: objects, ..old(self).book()[trim(name@)] },
                )
            } else {
                old(self).book()
            },
            final(self).unsaved == (old(self).unsaved || (r && old(self).book()[trim(
                name@,
            )].we_object != objects)),
    {
        match self.look_up(name) {
            None => false,
            Some((i, c)) => {
                if c.we_object == objects {
                    assert(self.book() =~= self.book().insert(
                        trim(name@),
                        ContactView { we_object: objects, ..self.book()[trim(name@)] },
                    ));
                    return true;
                }
                self.replace(i, Contact { we_object: objects, ..c });
                true
            },
        }
    }

    /// Record whether this contact objects to being written down.
    pub fn set_objection(&mut self, name: &str, objects: bool) -> (r: bool)
        requires
            old(self).wf(),
        ensures
            final(self).wf(),
            r == old(self).book().contains_key(trim(name@)),
            final(self).book() == if r {
                old(self).book().insert(
                    trim(name@),
                    ContactView { objects_to_history: objects, ..old(self).book()[trim(name@)] },
                )
            } else {
                old(self).book()
            },
            final(self).unsaved == (old(self).unsaved || (r && old(self).book()[trim(
                name@,
            )].objects_to_history != objects)),
    {
        match self.look_up(name) {
            None => false,
            Some((i, c)) => {
                if c.objects_to_history == objects {
                    assert(self.book() =~= self.book().insert(
                        trim(name@),
                        ContactView { objects_to_history: objects, ..self.book()[trim(name@)] },
                    ));
                    return true;
                }
                self.replace(i, Contact { objects_to_history: objects, ..c });
                true
            },
        }
    }

    /// Does this contact object to being written down? Unknown names object.
    pub fn objects_to_history(&self, name: &str) -> (r: bool)
        requires
            self.wf(),
        ensures
            r == (!self.book().contains_key(trim(name@)) || self.book()[trim(
                name@,
            )].objects_to_history),
    {
        match self.look_up(name) {
            None => true,
            Some((_, c)) => c.objects_to_history,
        }
    }

    /// Accept a message id from this contact, or say we have it already. Raises the mark on
    /// the way through.
    pub fn accept_left(&mut self, name: &str, id: u64) -> (r: bool)
        requires
            old(self).wf(),
            id < u64::MAX,
        ensures
            final(self).wf(),
            r == accepts_left(old(self).book(), trim(name@), id),
            final(self).book() == after_left(old(self).book(), trim(name@), id),
            final(self).unsaved == (old(self).unsaved || r),
    {
        match self.look_up(name) {
            None => false,
            Some((i, c)) => {
                if id < c.seen {
                    return false;
                }
                self.replace(i, Contact { seen: id + 1, ..c });
                true
            },
        }
    }

    /// Every contact, name first, in order.
    pub fn iter(&self) -> (r: Vec<(&str, &Contact)>)
        requires
            self.wf(),
        ensures
            r@.len() == self.entries().len(),
            forall|i: int|
                0 <= i < r@.len() ==> (#[trigger] r@[i]).0@ == self.entries()[i].0 && r@[i].1@
                    == self.entries()[i].1,
    {
        let mut v: Vec<(&str, &Contact)> = Vec::new();
        let mut i: usize = 0;
        while i < self.filed.len()
            invariant
                i <= self.entries().len(),
                self.wf(),
                v@.len() == i,
                forall|j: int|
                    0 <= j < i ==> (#[trigger] v@[j]).0@ == self.entries()[j].0 && v@[j].1@
                        == self.entries()[j].1,
            decreases self.entries().len() - i,
        {
            v.push((self.filed.keys[i].as_str(), &self.filed.vals[i]));
            i = i + 1;
        }
        v
    }

    /// The contacts we hold a connection open to, in order: those we agreed with.
    pub fn agreed(&self) -> (r: Vec<(&str, &Contact)>)
        requires
            self.wf(),
        ensures
            pair_views(r@) == agreed_of(self.entries()),
    {
        let mut v: Vec<(&str, &Contact)> = Vec::new();
        let ghost es = self.entries();
        let mut i: usize = 0;
        assert(pair_views(v@) =~= agreed_of(es.take(0)));
        while i < self.filed.len()
            invariant
                i <= es.len(),
                self.wf(),
                es == self.entries(),
                pair_views(v@) == agreed_of(es.take(i as int)),
            decreases es.len() - i,
        {
            let ghost now = es.take(i + 1);
            let ghost v0 = v@;
            proof {
                assert(now.drop_last() =~= es.take(i as int));
                assert(now.last() == (self.filed.keys@[i as int]@, self.filed.vals@[i as int]@));
            }
            match self.filed.vals[i].presence {
                Presence::On => {
                    v.push((self.filed.keys[i].as_str(), &self.filed.vals[i]));
                    assert(pair_views(v@) =~= pair_views(v0).push(now.last()));
                },
                _ => {},
            }
            i = i + 1;
        }
        assert(es.take(i as int) =~= es);
        v
    }

    /// How many contacts are filed.
    pub fn len(&self) -> (r: usize)
        requires
            self.wf(),
        ensures
            r == self.entries().len(),
    {
        self.filed.len()
    }
}

/// Pairs by their values.
pub open spec fn pair_views(s: Seq<(&str, &Contact)>) -> Seq<EntryView> {
    s.map_values(|p: (&str, &Contact)| (p.0@, p.1@))
}

/// Those of some entries who agreed to presence, in the same order.
pub open spec fn agreed_of(entries: Seq<EntryView>) -> Seq<EntryView>
    decreases entries.len(),
{
    if entries.len() == 0 {
        Seq::empty()
    } else {
        let before = agreed_of(entries.drop_last());
        if entries.last().1.presence == Presence::On {
            before.push(entries.last())
        } else {
            before
        }
    }
}

/// A message id is new from a contact.
pub open spec fn accepts_left(book: Map<Seq<char>, ContactView>, name: Seq<char>, id: u64) -> bool {
    book.contains_key(name) && id >= book[name].seen
}

/// The book once a message id has arrived.
pub open spec fn after_left(book: Map<Seq<char>, ContactView>, name: Seq<char>, id: u64) -> Map<
    Seq<char>,
    ContactView,
> {
    if accepts_left(book, name, id) {
        book.insert(name, ContactView { seen: (id + 1) as u64, ..book[name] })
    } else {
        book
    }
}

/// What was saved is what is opened: under the same key, the bytes that saving a book gives
/// open to the same contacts under the same names.
pub proof fn a_saved_book_reopens(
    key: Seq<u8>,
    stored: Seq<u8>,
    ks: Seq<Seq<char>>,
    vs: Seq<ContactView>,
)
    requires
        ascending(ks),
        ks.len() == vs.len() <= usize::MAX,
        forall|i: int| 0 <= i < ks.len() ==> entry_real(#[trigger] zipped(ks, vs)[i]),
        unsealed(key, stored) == Some(book_bytes(zipped(ks, vs))),
    ensures
        plaintext_of(key, stored) is Ok,
        read_book(plaintext_of(key, stored)->Ok_0) is Ok,
        filed(read_book(plaintext_of(key, stored)->Ok_0)->Ok_0) == paired(ks, vs),
{
    book_comes_back(zipped(ks, vs));
    filing_pairs(ks, vs);
}

/// A message left for us is shown exactly once, however often it is delivered: once an id has
/// been accepted, neither it nor a lower one is accepted again.
pub proof fn a_message_is_shown_once(
    book: Map<Seq<char>, ContactView>,
    name: Seq<char>,
    id: u64,
    again: u64,
)
    requires
        id < u64::MAX,
        accepts_left(book, name, id),
        again <= id,
    ensures
        !accepts_left(after_left(book, name, id), name, again),
        after_left(after_left(book, name, id), name, again) == after_left(book, name, id),
{
}

/// The mark of what we have from a contact never goes back.
pub proof fn the_mark_only_rises(book: Map<Seq<char>, ContactView>, name: Seq<char>, id: u64)
    requires
        id < u64::MAX,
        book.contains_key(name),
    ensures
        after_left(book, name, id)[name].seen >= book[name].seen,
{
}

/// A name is never pointed at someone else in passing: filing other details under it is
/// refused until the name has been forgotten.
pub proof fn a_name_is_moved_only_after_forgetting(
    book: Map<Seq<char>, ContactView>,
    name: Seq<char>,
    address: Seq<char>,
    discovery: Seq<char>,
)
    requires
        contact_name_fault(name) is None,
        address_fault(address) is None,
        discovery_key_ok(discovery),
        book.contains_key(name),
        book[name].address != address || book[name].discovery != discovery,
    ensures
        add_fault(book, name, address, discovery) == Some(AddError::Taken),
        add_fault(book.remove(name), name, address, discovery) is None,
{
}

/// Filing the same details again changes nothing, whatever has happened since: the contact
/// keeps their presence, the mark of what we have from them, and both objections.
pub proof fn filing_again_changes_nothing(
    book: Map<Seq<char>, ContactView>,
    name: Seq<char>,
    address: Seq<char>,
    discovery: Seq<char>,
)
    requires
        add_fault(book, name, address, discovery) is None,
    ensures
        after_filing(book, name, address, discovery).contains_key(name),
        book.contains_key(name) ==> after_filing(book, name, address, discovery) == book,
        add_fault(after_filing(book, name, address, discovery), name, address, discovery) is None,
        after_filing(after_filing(book, name, address, discovery), name, address, discovery)
            == after_filing(book, name, address, discovery),
{
}

/// Only those who agreed are dialled ahead, and all of those.
pub proof fn only_the_agreed_are_dialled_ahead(entries: Seq<EntryView>, e: EntryView)
    ensures
        agreed_of(entries).contains(e) <==> entries.contains(e) && e.1.presence == Presence::On,
    decreases entries.len(),
{
    if entries.len() > 0 {
        let init = entries.drop_last();
        let last = entries.last();
        only_the_agreed_are_dialled_ahead(init, e);
        let a = agreed_of(init);
        if agreed_of(entries).contains(e) {
            let i = agreed_of(entries).index_of(e);
            if i < a.len() {
                assert(a[i] == e);
                assert(a.contains(e));
                let j = init.index_of(e);
                assert(entries[j] == e);
            } else {
                assert(e == last);
                assert(entries[entries.len() - 1] == e);
            }
        }
        if entries.contains(e) && e.1.presence == Presence::On {
            let i = entries.index_of(e);
            if i < init.len() {
                assert(init[i] == e);
                let j = a.index_of(e);
                assert(agreed_of(entries)[j] == e);
            } else {
                assert(agreed_of(entries)[a.len() as int] == e);
            }
        }
    }
}

} // verus!
