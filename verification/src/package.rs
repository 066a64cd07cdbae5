//! Plugin packages (`.kxp`): reading, structural validation, and signatures.
//!
//! A package is a tar archive with `plugin.toml`, `plugin.wasm` and optional
//! `README.md`, `LICENSE` and `signature.ed25519`. Reading it is handling
//! untrusted input: paths are validated, sizes are bounded, and nothing is
//! extracted to the file system.

use crate::crypto::{
    base64_bytes, base64_decode, hex_encode, hex_of, sha256, sha256_of, text_from_utf8,
};
use crate::sse::{lossy_text, utf8_lossy};
use crate::text::{
    begins_with, contains, contains_part, decimal, decimal_text, law_parts_occur,
    law_splitting_begins_at_the_first, same, split, split_of, stands_at, starts_with, text3, text5, trim, trim_of, views,
};
use ed25519_dalek::Verifier;
use std::io::Read;
use vstd::prelude::*;
use vstd::utf8::{decode_utf8, encode_utf8, valid_utf8};

verus! {

/// The largest package that is accepted.
pub const MAX_PACKAGE_BYTES: u64 = 67_108_864;

/// The largest component that is accepted.
pub const MAX_COMPONENT_BYTES: u64 = 67_108_864;

/// The largest entry besides the component.
pub const MAX_ENTRY_BYTES: u64 = 2_097_152;

/// The largest signature entry.
pub const MAX_SIGNATURE_BYTES: u64 = 4096;

/// What walking through an archive comes upon: an entry, or a fault that ends
/// the walk.
#[derive(Debug)]
pub enum ArchiveItem {
    Entry { path: String, size: u64 },
    Broken(String),
}

/// What an `ArchiveItem` holds.
pub enum ItemModel {
    Entry { path: Seq<char>, size: u64 },
    Broken(Seq<char>),
}

impl View for ArchiveItem {
    type V = ItemModel;

    open spec fn view(&self) -> ItemModel {
        match *self {
            ArchiveItem::Entry { path, size } => ItemModel::Entry { path: path@, size },
            ArchiveItem::Broken(e) => ItemModel::Broken(e@),
        }
    }
}

/// The items of a list.
pub open spec fn item_views(v: Seq<ArchiveItem>) -> Seq<ItemModel> {
    v.map_values(|i: ArchiveItem| i@)
}

/// What walking through a tar archive comes upon, in order.
pub uninterp spec fn tar_items(bytes: Seq<u8>) -> Seq<ItemModel>;

/// At most so many bytes of the contents of the entry at a position of a tar
/// archive; `None` where they cannot be read.
pub uninterp spec fn tar_data(bytes: Seq<u8>, index: int, most: u64) -> Option<Seq<u8>>;

/// Whether an Ed25519 key verifies a signature of a message.
pub uninterp spec fn ed25519_accepts(key: Seq<u8>, message: Seq<u8>, signature: Seq<u8>) -> bool;

/// Whether a header of a GNU sparse file stands at a position, with the mark that
/// its map goes on in the blocks that follow.
pub open spec fn extends_sparse(bytes: Seq<u8>, at: int) -> bool {
    &&& 0 <= at <= bytes.len() - 512
    &&& at % 512 == 0
    &&& bytes[at + 156] == 0x53
    &&& bytes.subrange(at + 257, at + 265) == seq![
        0x75u8,
        0x73u8,
        0x74u8,
        0x61u8,
        0x72u8,
        0x20u8,
        0x20u8,
        0u8,
    ]
    &&& bytes[at + 482] == 1
}

/// Whether the size in the header at a position is a binary number of more than
/// 32 bits.
pub open spec fn is_large(bytes: Seq<u8>, at: int) -> bool {
    bytes[at + 124] >= 0x80 && !(bytes[at + 128] == 0 && bytes[at + 129] == 0 && bytes[at + 130]
        == 0 && bytes[at + 131] == 0)
}

/// Whether 20 digits stand at a position.
pub open spec fn is_long_number(bytes: Seq<u8>, at: int) -> bool {
    &&& 0 <= at <= bytes.len() - 20
    &&& forall|k: int| at <= k < at + 20 ==> 0x30 <= #[trigger] bytes[k] <= 0x39
}

/// Whether ` size=` and a number of 20 digits or more stand at a position, as in
/// an extended header that gives a size.
pub open spec fn names_large_size(bytes: Seq<u8>, at: int) -> bool {
    &&& 0 <= at <= bytes.len() - 6
    &&& bytes.subrange(at, at + 6) == seq![0x20u8, 0x73u8, 0x69u8, 0x7au8, 0x65u8, 0x3du8]
    &&& (is_long_number(bytes, at + 6) || at + 6 < bytes.len() && bytes[at + 6] == 0x2b
        && is_long_number(bytes, at + 7))
}

/// Whether an archive can be walked through: its length is bounded, and no sparse
/// file in it whose map goes on has a size that the positions after it cannot be
/// counted from.
pub open spec fn can_walk(bytes: Seq<u8>) -> bool {
    &&& bytes.len() <= MAX_PACKAGE_BYTES
    &&& forall|at: int| #[trigger] extends_sparse(bytes, at) ==> !is_large(bytes, at)
    &&& (exists|at: int| #[trigger] extends_sparse(bytes, at)) ==> forall|at: int|
        !#[trigger] names_large_size(bytes, at)
}

/// `tar::Archive::entries`: each entry with its path, decoded where it is not
/// UTF-8, and the size in its header, zero where that cannot be read. The walk
/// ends after a fault. For the blocks of a sparse map that goes on, it adds to
/// the position of the next entry without a check, which fails where a size near
/// the largest number stands in the header or in an extended header before it.
#[verifier::external_body]
fn walk_archive(bytes: &[u8]) -> (r: Vec<ArchiveItem>)
    requires
        can_walk(bytes@),
    ensures
        item_views(r@) == tar_items(bytes@),
{
    let mut archive = tar::Archive::new(bytes);
    let entries = match archive.entries() {
        Ok(list) => list,
        Err(e) => return vec![ArchiveItem::Broken(e.to_string())],
    };
    entries.map(|item| match item {
        Ok(e) => ArchiveItem::Entry {
            path: String::from_utf8_lossy(&e.path_bytes()).into_owned(),
            size: e.header().size().unwrap_or(0),
        },
        Err(e) => ArchiveItem::Broken(e.to_string()),
    }).collect()
}

/// `Read::take` and `Read::read_to_end` on the entry of `tar::Archive::entries`
/// at a position: what is there, and no more than so many bytes of it.
#[verifier::external_body]
fn read_entry(bytes: &[u8], index: usize, most: u64) -> (r: Option<Vec<u8>>)
    requires
        can_walk(bytes@),
    ensures
        match r {
            Some(data) => tar_data(bytes@, index as int, most) == Some(data@) && data@.len()
                <= most,
            None => tar_data(bytes@, index as int, most) is None,
        },
{
    let mut archive = tar::Archive::new(bytes);
    let entry = archive.entries().ok()?.nth(index)?.ok()?;
    let mut data = Vec::new();
    entry.take(most).read_to_end(&mut data).ok()?;
    Some(data)
}

/// `VerifyingKey::from_bytes` and `Verifier::verify`: whether the bytes are a
/// key and the key verifies the signature.
#[verifier::external_body]
fn verify_ed25519(key: &[u8; 32], message: &[u8], signature: &[u8; 64]) -> (r: bool)
    ensures
        r == ed25519_accepts(key@, message@, signature@),
{
    let sig = ed25519_dalek::Signature::from_bytes(signature);
    match ed25519_dalek::VerifyingKey::from_bytes(key) {
        Ok(k) => k.verify(message, &sig).is_ok(),
        Err(_) => false,
    }
}

/// Whether a signature is there and trusted.
#[derive(Debug, Clone, Copy, PartialEq, Eq, Structural)]
pub enum SignatureStatus {
    /// There is no signature.
    Unsigned,
    /// A trusted publisher key verifies the signature.
    Verified,
    /// No trusted publisher key verifies the signature.
    Untrusted,
}

impl SignatureStatus {
    pub fn as_str(&self) -> (r: &'static str)
        ensures
            r@ == (match *self {
                SignatureStatus::Unsigned => "unsigned"@,
                SignatureStatus::Verified => "verified"@,
                SignatureStatus::Untrusted => "untrusted"@,
            }),
    {
        match self {
            SignatureStatus::Unsigned => "unsigned",
            SignatureStatus::Verified => "verified",
            SignatureStatus::Untrusted => "untrusted",
        }
    }
}

/// The contents of a package.
#[derive(Debug)]
pub struct Package {
    pub manifest_toml: String,
    pub component: Vec<u8>,
    pub readme: Option<String>,
    pub license: Option<String>,
    pub signature: Option<Vec<u8>>,
    /// The SHA-256 of the whole package, in hexadecimal.
    pub package_sha256: String,
}

/// Why a package is refused.
#[derive(Debug)]
pub enum PackageError {
    TooLarge(u64),
    Broken(String),
    EmptyPath,
    AbsolutePath(String),
    Traversal(String),
    ManifestTooLarge,
    ComponentTooLarge(u64),
    SignatureTooLarge,
    EntryTooLarge,
    Unreadable(String),
    ManifestNotUtf8,
    MissingManifest,
    MissingComponent,
    BadMagic,
    SignatureEncoding,
    SignatureLength,
}

/// What a `PackageError` says.
pub enum PackageFault {
    TooLarge(u64),
    Broken(Seq<char>),
    EmptyPath,
    AbsolutePath(Seq<char>),
    Traversal(Seq<char>),
    ManifestTooLarge,
    ComponentTooLarge(u64),
    SignatureTooLarge,
    EntryTooLarge,
    Unreadable(Seq<char>),
    ManifestNotUtf8,
    MissingManifest,
    MissingComponent,
    BadMagic,
    SignatureEncoding,
    SignatureLength,
}

impl View for PackageError {
    type V = PackageFault;

    open spec fn view(&self) -> PackageFault {
        match *self {
            PackageError::TooLarge(n) => PackageFault::TooLarge(n),
            PackageError::Broken(e) => PackageFault::Broken(e@),
            PackageError::EmptyPath => PackageFault::EmptyPath,
            PackageError::AbsolutePath(p) => PackageFault::AbsolutePath(p@),
            PackageError::Traversal(p) => PackageFault::Traversal(p@),
            PackageError::ManifestTooLarge => PackageFault::ManifestTooLarge,
            PackageError::ComponentTooLarge(n) => PackageFault::ComponentTooLarge(n),
            PackageError::SignatureTooLarge => PackageFault::SignatureTooLarge,
            PackageError::EntryTooLarge => PackageFault::EntryTooLarge,
            PackageError::Unreadable(n) => PackageFault::Unreadable(n@),
            PackageError::ManifestNotUtf8 => PackageFault::ManifestNotUtf8,
            PackageError::MissingManifest => PackageFault::MissingManifest,
            PackageError::MissingComponent => PackageFault::MissingComponent,
            PackageError::BadMagic => PackageFault::BadMagic,
            PackageError::SignatureEncoding => PackageFault::SignatureEncoding,
            PackageError::SignatureLength => PackageFault::SignatureLength,
        }
    }
}

/// A fault in words.
pub open spec fn fault_text(f: PackageFault) -> Seq<char> {
    match f {
        PackageFault::TooLarge(n) => "package is "@ + decimal(n as nat)
            + " bytes, exceeding the "@ + decimal(MAX_PACKAGE_BYTES as nat) + " byte limit"@,
        PackageFault::Broken(e) => "reading .kxp entry: "@ + e + ""@,
        PackageFault::EmptyPath => "empty archive entry path"@,
        PackageFault::AbsolutePath(p) => "archive entry '"@ + p
            + "' has an absolute or invalid path"@,
        PackageFault::Traversal(p) => "archive entry '"@ + p + "' contains a '..' traversal"@,
        PackageFault::ManifestTooLarge => "plugin.toml too large"@,
        PackageFault::ComponentTooLarge(n) => "plugin.wasm is "@ + decimal(n as nat)
            + " bytes, exceeding the component limit"@,
        PackageFault::SignatureTooLarge => "signature.ed25519 too large"@,
        PackageFault::EntryTooLarge => "archive entry exceeds "@ + decimal(
            MAX_ENTRY_BYTES as nat,
        ) + " bytes"@,
        PackageFault::Unreadable(n) => "reading "@ + n + " failed"@,
        PackageFault::ManifestNotUtf8 => "stream did not contain valid UTF-8"@,
        PackageFault::MissingManifest => "package is missing plugin.toml"@,
        PackageFault::MissingComponent => "package is missing plugin.wasm"@,
        PackageFault::BadMagic => "plugin.wasm is not a WebAssembly module (bad magic)"@,
        PackageFault::SignatureEncoding =>
        "signature.ed25519 is not 64 bytes or valid base64"@,
        PackageFault::SignatureLength => "signature must be 64 bytes"@,
    }
}

impl PackageError {
    /// The error in words.
    pub fn message(&self) -> (r: String)
        ensures
            r@ == fault_text(self@),
    {
        match self {
            PackageError::TooLarge(n) => text5(
                "package is ",
                decimal_text(*n).as_str(),
                " bytes, exceeding the ",
                decimal_text(MAX_PACKAGE_BYTES).as_str(),
                " byte limit",
            ),
            PackageError::Broken(e) => text3("reading .kxp entry: ", e.as_str(), ""),
            PackageError::EmptyPath => "empty archive entry path".to_owned(),
            PackageError::AbsolutePath(p) => text3(
                "archive entry '",
                p.as_str(),
                "' has an absolute or invalid path",
            ),
            PackageError::Traversal(p) => text3(
                "archive entry '",
                p.as_str(),
                "' contains a '..' traversal",
            ),
            PackageError::ManifestTooLarge => "plugin.toml too large".to_owned(),
            PackageError::ComponentTooLarge(n) => text3(
                "plugin.wasm is ",
                decimal_text(*n).as_str(),
                " bytes, exceeding the component limit",
            ),
            PackageError::SignatureTooLarge => "signature.ed25519 too large".to_owned(),
            PackageError::EntryTooLarge => text3(
                "archive entry exceeds ",
                decimal_text(MAX_ENTRY_BYTES).as_str(),
                " bytes",
            ),
            PackageError::Unreadable(n) => text3("reading ", n.as_str(), " failed"),
            PackageError::ManifestNotUtf8 => "stream did not contain valid UTF-8".to_owned(),
            PackageError::MissingManifest => "package is missing plugin.toml".to_owned(),
            PackageError::MissingComponent => "package is missing plugin.wasm".to_owned(),
            PackageError::BadMagic =>
            "plugin.wasm is not a WebAssembly module (bad magic)".to_owned(),
            PackageError::SignatureEncoding =>
            "signature.ed25519 is not 64 bytes or valid base64".to_owned(),
            PackageError::SignatureLength => "signature must be 64 bytes".to_owned(),
        }
    }
}

/// What is wrong with the path of an entry: it is empty, absolute, holds a
/// backslash, or goes up.
pub open spec fn path_fault(path: Seq<char>) -> Option<PackageFault> {
    if path.len() == 0 {
        Some(PackageFault::EmptyPath)
    } else if begins_with(path, "/"@) || contains_part(path, "\\"@) {
        Some(PackageFault::AbsolutePath(path))
    } else if split_of(path, '/').contains(".."@) {
        Some(PackageFault::Traversal(path))
    } else {
        None
    }
}

/// Refuses a path that could lead out of the place where a package lies.
#[verifier::loop_isolation(false)]
pub fn validate_entry_path(path: &str) -> (r: Result<(), PackageError>)
    ensures
        match r {
            Ok(_) => path_fault(path@) is None,
            Err(e) => path_fault(path@) == Some(e@),
        },
{
    if path.is_empty() {
        return Err(PackageError::EmptyPath);
    }
    if starts_with(path, "/") || contains(path, "\\") {
        return Err(PackageError::AbsolutePath(path.to_owned()));
    }
    let parts = split(path, '/');
    let ghost shown = views(parts@);
    let mut i: usize = 0;
    while i < parts.len()
        invariant
            i <= parts@.len(),
            shown == views(parts@),
            forall|k: int| 0 <= k < i ==> (#[trigger] shown[k]) != ".."@,
        decreases parts@.len() - i,
    {
        assert(shown[i as int] == parts@[i as int]@);
        if same(parts[i].as_str(), "..") {
            assert(shown.contains(".."@));
            return Err(PackageError::Traversal(path.to_owned()));
        }
        i = i + 1;
    }
    assert(!shown.contains(".."@));
    Ok(())
}

/// The file name of a path that does not go up: the last part that is neither
/// empty nor a dot.
pub open spec fn last_name(parts: Seq<Seq<char>>) -> Seq<char>
    decreases parts.len(),
{
    if parts.len() == 0 {
        ""@
    } else if parts.last() == ""@ || parts.last() == "."@ {
        last_name(parts.drop_last())
    } else {
        parts.last()
    }
}

#[verifier::loop_isolation(false)]
fn file_name(path: &str) -> (r: String)
    ensures
        r@ == last_name(split_of(path@, '/')),
{
    let parts = split(path, '/');
    let ghost shown = views(parts@);
    let mut n: usize = parts.len();
    assert(shown.take(n as int) =~= shown);
    while n > 0
        invariant
            n <= parts@.len(),
            shown == views(parts@),
            last_name(shown.take(n as int)) == last_name(shown),
        decreases n,
    {
        let part = parts[n - 1].as_str();
        proof {
            assert(shown.take(n as int).last() == part@);
            assert(shown.take(n as int).drop_last() =~= shown.take(n - 1));
        }
        if !same(part, "") && !same(part, ".") {
            return part.to_owned();
        }
        n = n - 1;
    }
    assert(shown.take(0).len() == 0);
    "".to_owned()
}

/// What has been found of a package so far.
pub struct Found {
    pub manifest: Option<Seq<char>>,
    pub component: Option<Seq<u8>>,
    pub readme: Option<Seq<char>>,
    pub license: Option<Seq<char>>,
    pub signature: Option<Seq<u8>>,
}

/// The text of an optional file of at most so many bytes.
pub open spec fn bounded_text(data: Option<Seq<u8>>, name: Seq<char>) -> Result<
    Seq<char>,
    PackageFault,
> {
    match data {
        None => Err(PackageFault::Unreadable(name)),
        Some(d) => if d.len() > MAX_ENTRY_BYTES {
            Err(PackageFault::EntryTooLarge)
        } else {
            Ok(lossy_text(d))
        },
    }
}

/// What an item adds to what has been found. `data` are the contents of the
/// entry. Of entries with one name the last counts; unknown entries are
/// tolerated.
pub open spec fn found_with(f: Found, item: ItemModel, data: Option<Seq<u8>>) -> Result<
    Found,
    PackageFault,
> {
    match item {
        ItemModel::Broken(e) => Err(PackageFault::Broken(e)),
        ItemModel::Entry { path, size } => if path_fault(path) is Some {
            Err(path_fault(path)->0)
        } else {
            let name = last_name(split_of(path, '/'));
            if name == "plugin.toml"@ {
                if size > MAX_ENTRY_BYTES {
                    Err(PackageFault::ManifestTooLarge)
                } else {
                    match data {
                        None => Err(PackageFault::Unreadable(name)),
                        Some(d) => if valid_utf8(d) {
                            Ok(Found { manifest: Some(decode_utf8(d)), ..f })
                        } else {
                            Err(PackageFault::ManifestNotUtf8)
                        },
                    }
                }
            } else if name == "plugin.wasm"@ {
                if size > MAX_COMPONENT_BYTES {
                    Err(PackageFault::ComponentTooLarge(size))
                } else {
                    match data {
                        None => Err(PackageFault::Unreadable(name)),
                        Some(d) => Ok(Found { component: Some(d), ..f }),
                    }
                }
            } else if name == "signature.ed25519"@ {
                if size > MAX_SIGNATURE_BYTES {
                    Err(PackageFault::SignatureTooLarge)
                } else {
                    match data {
                        None => Err(PackageFault::Unreadable(name)),
                        Some(d) => Ok(Found { signature: Some(d), ..f }),
                    }
                }
            } else if name == "README.md"@ {
                match bounded_text(data, name) {
                    Ok(t) => Ok(Found { readme: Some(t), ..f }),
                    Err(e) => Err(e),
                }
            } else if name == "LICENSE"@ {
                match bounded_text(data, name) {
                    Ok(t) => Ok(Found { license: Some(t), ..f }),
                    Err(e) => Err(e),
                }
            } else {
                Ok(f)
            }
        },
    }
}

/// What the first `n` items of an archive add up to. `data` are the contents of
/// the entries.
pub open spec fn found_in(items: Seq<ItemModel>, data: Seq<Option<Seq<u8>>>, n: int) -> Result<
    Found,
    PackageFault,
>
    decreases n,
{
    if n <= 0 {
        Ok(Found { manifest: None, component: None, readme: None, license: None, signature: None })
    } else {
        match found_in(items, data, n - 1) {
            Ok(f) => found_with(f, items[n - 1], data[n - 1]),
            Err(e) => Err(e),
        }
    }
}

/// Whether some bytes begin as a WebAssembly module.
pub open spec fn is_wasm(c: Seq<u8>) -> bool {
    c.len() >= 8 && c[0] == 0 && c[1] == 0x61 && c[2] == 0x73 && c[3] == 0x6d
}

/// The contents of an optional byte list.
pub open spec fn bytes_in(b: Option<Vec<u8>>) -> Option<Seq<u8>> {
    match b {
        Some(v) => Some(v@),
        None => None,
    }
}

/// Whether a package is what was found in an archive.
pub open spec fn holds(p: Package, f: Found) -> bool {
    &&& f.manifest == Some(p.manifest_toml@)
    &&& f.component == Some(p.component@)
    &&& f.readme == crate::types::text_in(p.readme)
    &&& f.license == crate::types::text_in(p.license)
    &&& f.signature == bytes_in(p.signature)
}

/// What is wrong with what was found: the manifest or the component is missing,
/// or the component is no WebAssembly module.
pub open spec fn content_fault(f: Found) -> Option<PackageFault> {
    if f.manifest is None {
        Some(PackageFault::MissingManifest)
    } else if f.component is None {
        Some(PackageFault::MissingComponent)
    } else if !is_wasm(f.component->0) {
        Some(PackageFault::BadMagic)
    } else {
        None
    }
}

/// How many bytes of an entry are read: of the texts one more than they may have,
/// of the others, whose size has been looked at, all.
pub open spec fn most_of(item: ItemModel) -> u64 {
    match item {
        ItemModel::Broken(_) => u64::MAX,
        ItemModel::Entry { path, size } => {
            let name = last_name(split_of(path, '/'));
            if name == "README.md"@ || name == "LICENSE"@ {
                (MAX_ENTRY_BYTES + 1) as u64
            } else {
                u64::MAX
            }
        },
    }
}

/// What is read of the entries of a tar archive.
pub open spec fn tar_contents(bytes: Seq<u8>, items: Seq<ItemModel>) -> Seq<Option<Seq<u8>>> {
    Seq::new(items.len(), |i: int| tar_data(bytes, i, most_of(items[i])))
}

/// Whether reading a package gives what the archive's items and their contents
/// add up to.
pub open spec fn is_package_of(
    items: Seq<ItemModel>,
    data: Seq<Option<Seq<u8>>>,
    r: Result<Package, PackageError>,
) -> bool {
    match found_in(items, data, items.len() as int) {
        Err(e) => r matches Err(got) && got@ == e,
        Ok(f) => match content_fault(f) {
            Some(e) => r matches Err(got) && got@ == e,
            None => r matches Ok(p) && holds(p, f),
        },
    }
}

/// The part of a package that has been found.
struct Parts {
    manifest: Option<String>,
    component: Option<Vec<u8>>,
    readme: Option<String>,
    license: Option<String>,
    signature: Option<Vec<u8>>,
}

impl View for Parts {
    type V = Found;

    closed spec fn view(&self) -> Found {
        Found {
            manifest: crate::types::text_in(self.manifest),
            component: bytes_in(self.component),
            readme: crate::types::text_in(self.readme),
            license: crate::types::text_in(self.license),
            signature: bytes_in(self.signature),
        }
    }
}

fn read_bounded(data: Option<Vec<u8>>, name: &str) -> (r: Result<String, PackageError>)
    ensures
        match r {
            Ok(t) => bounded_text(bytes_in(data), name@) == Ok::<Seq<char>, PackageFault>(t@),
            Err(e) => bounded_text(bytes_in(data), name@) == Err::<Seq<char>, PackageFault>(e@),
        },
{
    match data {
        None => Err(PackageError::Unreadable(name.to_owned())),
        Some(d) => if d.len() as u64 > MAX_ENTRY_BYTES {
            Err(PackageError::EntryTooLarge)
        } else {
            Ok(utf8_lossy(d.as_slice()))
        },
    }
}

/// Whether the contents of an entry are needed: the entry is one of those that
/// make a package, and no larger than it may be.
pub open spec fn needs_data(item: ItemModel) -> bool {
    match item {
        ItemModel::Broken(_) => false,
        ItemModel::Entry { path, size } => {
            let name = last_name(split_of(path, '/'));
            path_fault(path) is None && (name == "plugin.toml"@ && size <= MAX_ENTRY_BYTES || name
                == "plugin.wasm"@ && size <= MAX_COMPONENT_BYTES || name == "signature.ed25519"@
                && size <= MAX_SIGNATURE_BYTES || name == "README.md"@ || name == "LICENSE"@)
        },
    }
}

proof fn lemma_data_not_needed(f: Found, item: ItemModel, a: Option<Seq<u8>>, b: Option<Seq<u8>>)
    requires
        !needs_data(item),
    ensures
        found_with(f, item, a) == found_with(f, item, b),
{
}

fn wants_data(item: &ArchiveItem) -> (r: bool)
    ensures
        r == needs_data(item@),
{
    match item {
        ArchiveItem::Broken(_) => false,
        ArchiveItem::Entry { path, size } => {
            if validate_entry_path(path.as_str()).is_err() {
                return false;
            }
            let name = file_name(path.as_str());
            let n = name.as_str();
            (same(n, "plugin.toml") && *size <= MAX_ENTRY_BYTES) || (same(n, "plugin.wasm")
                && *size <= MAX_COMPONENT_BYTES) || (same(n, "signature.ed25519") && *size
                <= MAX_SIGNATURE_BYTES) || same(n, "README.md") || same(n, "LICENSE")
        },
    }
}

fn add_item(parts: Parts, item: &ArchiveItem, data: Option<Vec<u8>>) -> (r: Result<
    Parts,
    PackageError,
>)
    ensures
        match r {
            Ok(p) => found_with(parts@, item@, bytes_in(data)) == Ok::<Found, PackageFault>(p@),
            Err(e) => found_with(parts@, item@, bytes_in(data)) == Err::<Found, PackageFault>(e@),
        },
{
    let (path, size) = match item {
        ArchiveItem::Broken(e) => {
            return Err(PackageError::Broken(e.clone()));
        },
        ArchiveItem::Entry { path, size } => (path, *size),
    };
    if let Err(e) = validate_entry_path(path.as_str()) {
        return Err(e);
    }
    let mut parts = parts;
    let name = file_name(path.as_str());
    let n = name.as_str();
    if same(n, "plugin.toml") {
        if size > MAX_ENTRY_BYTES {
            return Err(PackageError::ManifestTooLarge);
        }
        match data {
            None => Err(PackageError::Unreadable(name)),
            Some(d) => match text_from_utf8(d) {
                Ok(t) => {
                    parts.manifest = Some(t);
                    Ok(parts)
                },
                Err(_) => Err(PackageError::ManifestNotUtf8),
            },
        }
    } else if same(n, "plugin.wasm") {
        if size > MAX_COMPONENT_BYTES {
            return Err(PackageError::ComponentTooLarge(size));
        }
        match data {
            None => Err(PackageError::Unreadable(name)),
            Some(d) => {
                parts.component = Some(d);
                Ok(parts)
            },
        }
    } else if same(n, "signature.ed25519") {
        if size > MAX_SIGNATURE_BYTES {
            return Err(PackageError::SignatureTooLarge);
        }
        match data {
            None => Err(PackageError::Unreadable(name)),
            Some(d) => {
                parts.signature = Some(d);
                Ok(parts)
            },
        }
    } else if same(n, "README.md") {
        match read_bounded(data, n) {
            Ok(t) => {
                parts.readme = Some(t);
                Ok(parts)
            },
            Err(e) => Err(e),
        }
    } else if same(n, "LICENSE") {
        match read_bounded(data, n) {
            Ok(t) => {
                parts.license = Some(t);
                Ok(parts)
            },
            Err(e) => Err(e),
        }
    } else {
        Ok(parts)
    }
}

proof fn lemma_found_err(items: Seq<ItemModel>, data: Seq<Option<Seq<u8>>>, i: int, n: int)
    requires
        0 <= i <= n,
        found_in(items, data, i) is Err,
    ensures
        found_in(items, data, n) == found_in(items, data, i),
    decreases n,
{
    if i < n {
        lemma_found_err(items, data, i, n - 1);
    }
}

fn finish_package(parts: Parts, package_sha256: String) -> (r: Result<Package, PackageError>)
    ensures
        match content_fault(parts@) {
            Some(e) => r matches Err(got) && got@ == e,
            None => r matches Ok(p) && holds(p, parts@) && p.package_sha256 == package_sha256,
        },
{
    let manifest_toml = match parts.manifest {
        Some(m) => m,
        None => {
            return Err(PackageError::MissingManifest);
        },
    };
    let component = match parts.component {
        Some(c) => c,
        None => {
            return Err(PackageError::MissingComponent);
        },
    };
    if component.len() < 8 || component[0] != 0 || component[1] != 0x61 || component[2] != 0x73
        || component[3] != 0x6d {
        return Err(PackageError::BadMagic);
    }
    Ok(
        Package {
            manifest_toml,
            component,
            readme: parts.readme,
            license: parts.license,
            signature: parts.signature,
            package_sha256,
        },
    )
}

/// Puts a package together from the items of an archive and their contents.
pub fn assemble_package(
    items: &Vec<ArchiveItem>,
    contents: Vec<Option<Vec<u8>>>,
    package_sha256: String,
) -> (r: Result<Package, PackageError>)
    requires
        contents@.len() == items@.len(),
    ensures
        is_package_of(
            item_views(items@),
            contents@.map_values(|d: Option<Vec<u8>>| bytes_in(d)),
            r,
        ),
        r matches Ok(p) ==> p.package_sha256 == package_sha256,
{
    let ghost shown = item_views(items@);
    let ghost list = contents@;
    let ghost data = contents@.map_values(|d: Option<Vec<u8>>| bytes_in(d));
    let mut parts = Parts {
        manifest: None,
        component: None,
        readme: None,
        license: None,
        signature: None,
    };
    let mut i: usize = 0;
    let total: usize = items.len();
    for d in it: contents.into_iter()
        invariant
            it.seq() == list,
            list.len() == items@.len(),
            total == items@.len(),
            i == it.index(),
            shown == item_views(items@),
            data == list.map_values(|d: Option<Vec<u8>>| bytes_in(d)),
            found_in(shown, data, i as int) == Ok::<Found, PackageFault>(parts@),
    {
        assert(shown[i as int] == items@[i as int]@);
        assert(data[i as int] == bytes_in(d));
        match add_item(parts, &items[i], d) {
            Ok(p) => {
                parts = p;
            },
            Err(e) => {
                proof {
                    lemma_found_err(shown, data, i + 1, shown.len() as int);
                }
                return Err(e);
            },
        }
        i = i + 1;
    }
    finish_package(parts, package_sha256)
}

fn read_most(item: &ArchiveItem) -> (r: u64)
    ensures
        r == most_of(item@),
{
    match item {
        ArchiveItem::Broken(_) => u64::MAX,
        ArchiveItem::Entry { path, size } => {
            let name = file_name(path.as_str());
            if same(name.as_str(), "README.md") || same(name.as_str(), "LICENSE") {
                MAX_ENTRY_BYTES + 1
            } else {
                u64::MAX
            }
        },
    }
}

fn sparse_at(bytes: &[u8], at: usize) -> (r: bool)
    requires
        at % 512 == 0,
        at + 512 <= bytes@.len(),
    ensures
        r == extends_sparse(bytes@, at as int),
{
    let ghost magic = bytes@.subrange(at + 257, at + 265);
    let ghost gnu = seq![0x75u8, 0x73u8, 0x74u8, 0x61u8, 0x72u8, 0x20u8, 0x20u8, 0u8];
    let marked = bytes[at + 257] == 0x75 && bytes[at + 258] == 0x73 && bytes[at + 259] == 0x74
        && bytes[at + 260] == 0x61 && bytes[at + 261] == 0x72 && bytes[at + 262] == 0x20
        && bytes[at + 263] == 0x20 && bytes[at + 264] == 0;
    proof {
        if marked {
            assert(magic =~= gnu);
        } else if magic == gnu {
            assert(magic[0] == gnu[0] && magic[1] == gnu[1] && magic[2] == gnu[2] && magic[3]
                == gnu[3] && magic[4] == gnu[4] && magic[5] == gnu[5] && magic[6] == gnu[6]
                && magic[7] == gnu[7]);
        }
    }
    bytes[at + 156] == 0x53 && marked && bytes[at + 482] == 1
}

fn long_number_at(bytes: &[u8], at: usize) -> (r: bool)
    requires
        at <= bytes@.len(),
    ensures
        r == is_long_number(bytes@, at as int),
{
    if bytes.len() - at < 20 {
        return false;
    }
    let mut k: usize = at;
    while k - at < 20
        invariant
            at <= k <= at + 20 <= bytes@.len(),
            forall|j: int| at <= j < k ==> 0x30 <= #[trigger] bytes@[j] <= 0x39,
        decreases at + 20 - k,
    {
        if bytes[k] < 0x30 || bytes[k] > 0x39 {
            return false;
        }
        k = k + 1;
    }
    true
}

fn large_size_at(bytes: &[u8], at: usize) -> (r: bool)
    requires
        at + 6 <= bytes@.len(),
    ensures
        r == names_large_size(bytes@, at as int),
{
    let ghost word = bytes@.subrange(at as int, at + 6);
    let ghost named = seq![0x20u8, 0x73u8, 0x69u8, 0x7au8, 0x65u8, 0x3du8];
    let marked = bytes[at] == 0x20 && bytes[at + 1] == 0x73 && bytes[at + 2] == 0x69 && bytes[at + 3]
        == 0x7a && bytes[at + 4] == 0x65 && bytes[at + 5] == 0x3d;
    proof {
        if marked {
            assert(word =~= named);
        } else if word == named {
            assert(word[0] == named[0] && word[1] == named[1] && word[2] == named[2] && word[3]
                == named[3] && word[4] == named[4] && word[5] == named[5]);
        }
    }
    marked && (long_number_at(bytes, at + 6) || at + 6 < bytes.len() && bytes[at + 6] == 0x2b
        && long_number_at(bytes, at + 7))
}

/// Whether an archive can be walked through.
pub fn may_walk(bytes: &[u8]) -> (r: bool)
    ensures
        r == can_walk(bytes@),
{
    if bytes.len() as u64 > MAX_PACKAGE_BYTES {
        return false;
    }
    let mut extended = false;
    let mut at: usize = 0;
    while bytes.len() - at >= 512
        invariant
            at <= bytes@.len() <= MAX_PACKAGE_BYTES,
            at % 512 == 0,
            forall|k: int|
                0 <= k < at && #[trigger] extends_sparse(bytes@, k) ==> extended && !is_large(
                    bytes@,
                    k,
                ),
            extended ==> exists|k: int| #[trigger] extends_sparse(bytes@, k),
        decreases bytes@.len() - at,
    {
        if sparse_at(bytes, at) {
            if bytes[at + 124] >= 0x80 && !(bytes[at + 128] == 0 && bytes[at + 129] == 0
                && bytes[at + 130] == 0 && bytes[at + 131] == 0) {
                assert(is_large(bytes@, at as int));
                return false;
            }
            extended = true;
        }
        assert forall|k: int|
            0 <= k < at + 512 && #[trigger] extends_sparse(bytes@, k) implies extended && !is_large(
            bytes@,
            k,
        ) by {
            if k >= at {
                assert(k == at);
            }
        }
        at = at + 512;
    }
    if !extended {
        return true;
    }
    let mut i: usize = 0;
    while bytes.len() - i >= 6
        invariant
            i <= bytes@.len(),
            exists|k: int| #[trigger] extends_sparse(bytes@, k),
            forall|k: int| 0 <= k < i ==> !#[trigger] names_large_size(bytes@, k),
        decreases bytes@.len() - i,
    {
        if large_size_at(bytes, i) {
            assert(names_large_size(bytes@, i as int));
            return false;
        }
        i = i + 1;
    }
    true
}

/// Reads a package and validates its structure: the size, the paths and sizes
/// of its entries, and that it holds a manifest and a WebAssembly component.
/// Signatures are not looked at.
pub fn read_package(bytes: &[u8]) -> (r: Result<Package, PackageError>)
    ensures
        bytes@.len() > MAX_PACKAGE_BYTES ==> (r matches Err(e) && e@ == PackageFault::TooLarge(
            bytes@.len() as u64,
        )),
        bytes@.len() <= MAX_PACKAGE_BYTES && !can_walk(bytes@) ==> (r matches Err(e) && e@
            == PackageFault::Broken("size overflow"@)),
        can_walk(bytes@) ==> is_package_of(
            tar_items(bytes@),
            tar_contents(bytes@, tar_items(bytes@)),
            r,
        ),
        r matches Ok(p) ==> p.package_sha256@ == hex_of(sha256_of(bytes@)),
{
    if bytes.len() as u64 > MAX_PACKAGE_BYTES {
        return Err(PackageError::TooLarge(bytes.len() as u64));
    }
    if !may_walk(bytes) {
        return Err(PackageError::Broken("size overflow".to_owned()));
    }
    let package_sha256 = sha256_hex(bytes);
    let items = walk_archive(bytes);
    let ghost shown = item_views(items@);
    let mut contents: Vec<Option<Vec<u8>>> = Vec::new();
    let mut i: usize = 0;
    while i < items.len()
        invariant
            i <= items@.len(),
            can_walk(bytes@),
            shown == item_views(items@),
            contents@.len() == i,
            forall|k: int|
                0 <= k < i ==> needs_data(#[trigger] shown[k]) ==> bytes_in(contents@[k])
                    == tar_data(bytes@, k, most_of(shown[k])),
        decreases items@.len() - i,
    {
        assert(shown[i as int] == items@[i as int]@);
        let data = if wants_data(&items[i]) {
            let most: u64 = read_most(&items[i]);
            read_entry(bytes, i, most)
        } else {
            None
        };
        contents.push(data);
        i = i + 1;
    }
    let ghost given = contents@.map_values(|d: Option<Vec<u8>>| bytes_in(d));
    proof {
        lemma_same_found(shown, given, tar_contents(bytes@, shown), shown.len() as int);
    }
    assemble_package(&items, contents, package_sha256)
}

proof fn lemma_same_found(
    items: Seq<ItemModel>,
    a: Seq<Option<Seq<u8>>>,
    b: Seq<Option<Seq<u8>>>,
    n: int,
)
    requires
        0 <= n <= items.len(),
        a.len() == items.len(),
        b.len() == items.len(),
        forall|k: int| 0 <= k < items.len() ==> needs_data(#[trigger] items[k]) ==> a[k] == b[k],
    ensures
        found_in(items, a, n) == found_in(items, b, n),
    decreases n,
{
    if n > 0 {
        lemma_same_found(items, a, b, n - 1);
        if let Ok(f) = found_in(items, a, n - 1) {
            if !needs_data(items[n - 1]) {
                lemma_data_not_needed(f, items[n - 1], a[n - 1], b[n - 1]);
            }
        }
    }
}

/// The SHA-256 of some bytes, in hexadecimal.
pub fn sha256_hex(bytes: &[u8]) -> (r: String)
    ensures
        r@ == hex_of(sha256_of(bytes@)),
{
    hex_encode(sha256(bytes).as_slice())
}

/// The bytes of a signature entry: 64 raw bytes, or base64 of 64 bytes, white
/// space around it left out.
pub open spec fn signature_bytes(entry: Seq<u8>) -> Result<Seq<u8>, PackageFault> {
    if entry.len() == 64 {
        Ok(entry)
    } else {
        match base64_bytes(trim_of(lossy_text(entry))) {
            Err(_) => Err(PackageFault::SignatureEncoding),
            Ok(b) => if b.len() == 64 {
                Ok(b)
            } else {
                Err(PackageFault::SignatureLength)
            },
        }
    }
}

fn array_64(v: &Vec<u8>) -> (r: [u8; 64])
    requires
        v@.len() == 64,
    ensures
        r@ == v@,
{
    let mut out: [u8; 64] = [0u8; 64];
    let mut i: usize = 0;
    while i < 64
        invariant
            i <= 64,
            v@.len() == 64,
            forall|k: int| 0 <= k < i ==> out@[k] == v@[k],
        decreases 64 - i,
    {
        out[i] = v[i];
        i = i + 1;
    }
    assert(out@ =~= v@);
    out
}

fn read_signature(entry: &Vec<u8>) -> (r: Result<[u8; 64], PackageError>)
    ensures
        match r {
            Ok(s) => signature_bytes(entry@) == Ok::<Seq<u8>, PackageFault>(s@),
            Err(e) => signature_bytes(entry@) == Err::<Seq<u8>, PackageFault>(e@),
        },
{
    if entry.len() == 64 {
        return Ok(array_64(entry));
    }
    let text = utf8_lossy(entry.as_slice());
    match base64_decode(trim(text.as_str()).as_str()) {
        Err(_) => Err(PackageError::SignatureEncoding),
        Ok(b) => if b.len() == 64 {
            Ok(array_64(&b))
        } else {
            Err(PackageError::SignatureLength)
        },
    }
}

/// What a signature signs: the SHA-256 of the component followed by the
/// manifest.
pub open spec fn signed_digest(component: Seq<u8>, manifest: Seq<char>) -> Seq<u8> {
    sha256_of(component + encode_utf8(manifest))
}

/// Whether one of the keys verifies a signature.
pub open spec fn some_key_accepts(keys: Seq<[u8; 32]>, message: Seq<u8>, sig: Seq<u8>) -> bool {
    exists|i: int| 0 <= i < keys.len() && ed25519_accepts((#[trigger] keys[i])@, message, sig)
}

/// Verifies a package's signature against the trusted publisher keys.
#[verifier::loop_isolation(false)]
pub fn verify_signature(pkg: &Package, trusted_keys: &Vec<[u8; 32]>) -> (r: Result<
    SignatureStatus,
    PackageError,
>)
    ensures
        match pkg.signature {
            None => r == Ok::<SignatureStatus, PackageError>(SignatureStatus::Unsigned),
            Some(entry) => match signature_bytes(entry@) {
                Err(e) => r matches Err(got) && got@ == e,
                Ok(sig) => r == Ok::<SignatureStatus, PackageError>(
                    if some_key_accepts(
                        trusted_keys@,
                        signed_digest(pkg.component@, pkg.manifest_toml@),
                        sig,
                    ) {
                        SignatureStatus::Verified
                    } else {
                        SignatureStatus::Untrusted
                    },
                ),
            },
        },
{
    let entry = match &pkg.signature {
        Some(s) => s,
        None => {
            return Ok(SignatureStatus::Unsigned);
        },
    };
    let sig = match read_signature(entry) {
        Ok(s) => s,
        Err(e) => {
            return Err(e);
        },
    };
    let mut payload: Vec<u8> = Vec::new();
    payload.extend_from_slice(pkg.component.as_slice());
    payload.extend_from_slice(pkg.manifest_toml.as_str().as_bytes());
    assert(payload@ =~= pkg.component@ + encode_utf8(pkg.manifest_toml@));
    let digest = sha256(payload.as_slice());
    let mut i: usize = 0;
    while i < trusted_keys.len()
        invariant
            i <= trusted_keys@.len(),
            forall|k: int|
                0 <= k < i ==> !ed25519_accepts((#[trigger] trusted_keys@[k])@, digest@, sig@),
        decreases trusted_keys@.len() - i,
    {
        if verify_ed25519(&trusted_keys[i], digest.as_slice(), &sig) {
            assert(some_key_accepts(trusted_keys@, digest@, sig@));
            return Ok(SignatureStatus::Verified);
        }
        i = i + 1;
    }
    Ok(SignatureStatus::Untrusted)
}

/// A package is verified only where a trusted key verifies its signature, and a
/// package without trusted keys is never verified.
pub proof fn law_no_trust_without_keys(message: Seq<u8>, sig: Seq<u8>)
    ensures
        !some_key_accepts(Seq::empty(), message, sig),
{
}

/// A package holds no entry whose path leads out of it, and its component is a
/// WebAssembly module.
pub proof fn law_packages_are_contained(
    items: Seq<ItemModel>,
    data: Seq<Option<Seq<u8>>>,
    p: Package,
    i: int,
)
    requires
        is_package_of(items, data, Ok(p)),
        0 <= i < items.len(),
    ensures
        items[i] matches ItemModel::Entry { path, .. } && path_fault(path) is None,
        is_wasm(p.component@),
{
    if found_in(items, data, i + 1) is Err {
        lemma_found_err(items, data, i + 1, items.len() as int);
    }
}

/// A path that leads out of the package is refused: one from the root, one with a
/// backslash anywhere, and one with a step up; an empty path names nothing.
pub proof fn law_paths_cannot_lead_out(a: Seq<char>, b: Seq<char>)
    ensures
        path_fault(Seq::empty()) == Some(PackageFault::EmptyPath),
        path_fault("/"@ + a) == Some(PackageFault::AbsolutePath("/"@ + a)),
        path_fault(a + "\\"@ + b) == Some(PackageFault::AbsolutePath(a + "\\"@ + b)),
        path_fault(".."@) is Some,
        path_fault(".."@ + seq!['/'] + b) is Some,
        !a.contains('/') ==> path_fault(a + seq!['/'] + ".."@) is Some && path_fault(
            a + seq!['/'] + (".."@ + seq!['/'] + b),
        ) is Some,
{
    law_parts_occur(Seq::empty(), "/"@, a);
    law_parts_occur(a, "\\"@, b);
    reveal_strlit("\\");
    reveal_strlit("..");
    reveal_strlit("/");
    assert("\\"@.len() == 1 && "/"@.len() == 1);
    assert(".."@ =~= seq!['.', '.']);
    assert(!".."@.contains('/'));
    law_splitting_begins_at_the_first(".."@, '/', b);
    let p = ".."@;
    assert(seq![p][0] == p);
    assert(seq![p].contains(p));
    let tail = split_of(b, '/');
    assert((seq![p] + tail)[0] == p);
    assert((seq![p] + tail).contains(p));
    if !a.contains('/') {
        law_splitting_begins_at_the_first(a, '/', p);
        law_splitting_begins_at_the_first(a, '/', p + seq!['/'] + b);
        assert((seq![a] + seq![p])[1] == p);
        assert((seq![a] + seq![p]).contains(p));
        assert((seq![a] + (seq![p] + tail))[1] == p);
        assert((seq![a] + (seq![p] + tail)).contains(p));
    }
}

/// A path without any of that is accepted.
pub proof fn law_plain_paths_are_accepted(path: Seq<char>)
    requires
        path.len() > 0,
        path[0] != '/',
        !path.contains('\\'),
        forall|k: int|
            0 <= k < split_of(path, '/').len() ==> #[trigger] split_of(path, '/')[k] != ".."@,
    ensures
        path_fault(path) is None,
{
    reveal_strlit("/");
    reveal_strlit("\\");
    assert("/"@[0] == '/' && "\\"@[0] == '\\' && "/"@.len() == 1 && "\\"@.len() == 1);
    if begins_with(path, "/"@) {
        assert(path.take(1)[0] == path[0]);
    }
    if contains_part(path, "\\"@) {
        let at = choose|at: int| stands_at(path, "\\"@, at);
        assert(path.subrange(at, at + 1)[0] == path[at]);
        assert(path.contains(path[at]));
    }
}

/// A file is known by the last part of its path that is a name.
pub proof fn law_files_are_known_by_their_names(parts: Seq<Seq<char>>, name: Seq<char>)
    ensures
        name != ""@ && name != "."@ ==> last_name(parts.push(name)) == name,
        last_name(parts.push(""@)) == last_name(parts),
        last_name(parts.push("."@)) == last_name(parts),
        last_name(Seq::empty()) == ""@,
{
    assert(parts.push(name).drop_last() =~= parts);
    assert(parts.push(""@).drop_last() =~= parts);
    assert(parts.push("."@).drop_last() =~= parts);
}

/// Each file of a package goes to its own place and touches no other; a file of
/// another name is passed over.
pub proof fn law_files_go_to_their_places(
    f: Found,
    path: Seq<char>,
    size: u64,
    data: Option<Seq<u8>>,
    g: Found,
)
    requires
        found_with(f, ItemModel::Entry { path, size }, data) == Ok::<Found, PackageFault>(g),
    ensures
        path_fault(path) is None,
        ({
            let name = last_name(split_of(path, '/'));
            &&& name != "plugin.toml"@ ==> g.manifest == f.manifest
            &&& name != "plugin.wasm"@ ==> g.component == f.component
            &&& name != "signature.ed25519"@ ==> g.signature == f.signature
            &&& name != "README.md"@ ==> g.readme == f.readme
            &&& name != "LICENSE"@ ==> g.license == f.license
            &&& name == "plugin.wasm"@ ==> g.component == data && size <= 67_108_864
            &&& name == "signature.ed25519"@ ==> g.signature == data && size <= 4096
            &&& name == "plugin.toml"@ ==> data is Some && valid_utf8(data->0) && g.manifest == Some(
                decode_utf8(data->0),
            ) && size <= 2_097_152
            &&& name == "README.md"@ ==> data is Some && g.readme == Some(lossy_text(data->0))
                && data->0.len() <= 2_097_152
            &&& name == "LICENSE"@ ==> data is Some && g.license == Some(lossy_text(data->0))
                && data->0.len() <= 2_097_152
        }),
{
    lemma_file_names();
}

/// A file within its limit that can be read is taken in, and one beyond it is
/// refused.
pub proof fn law_files_within_their_limits_are_taken(
    f: Found,
    path: Seq<char>,
    size: u64,
    data: Seq<u8>,
)
    requires
        path_fault(path) is None,
    ensures
        ({
            let name = last_name(split_of(path, '/'));
            let r = found_with(f, ItemModel::Entry { path, size }, Some(data));
            &&& name == "plugin.wasm"@ ==> (r is Ok <==> size <= 67_108_864)
            &&& name == "signature.ed25519"@ ==> (r is Ok <==> size <= 4096)
            &&& name == "plugin.toml"@ ==> (r is Ok <==> size <= 2_097_152 && valid_utf8(data))
            &&& name == "README.md"@ || name == "LICENSE"@ ==> (r is Ok <==> data.len()
                <= 2_097_152)
            &&& name != "plugin.toml"@ && name != "plugin.wasm"@ && name != "signature.ed25519"@
                && name != "README.md"@ && name != "LICENSE"@ ==> r == Ok::<Found, PackageFault>(f)
        }),
{
    lemma_file_names();
}

proof fn lemma_file_names()
    ensures
        "plugin.toml"@ != "plugin.wasm"@,
        "plugin.toml"@ != "signature.ed25519"@,
        "plugin.toml"@ != "README.md"@,
        "plugin.toml"@ != "LICENSE"@,
        "plugin.wasm"@ != "signature.ed25519"@,
        "plugin.wasm"@ != "README.md"@,
        "plugin.wasm"@ != "LICENSE"@,
        "signature.ed25519"@ != "README.md"@,
        "signature.ed25519"@ != "LICENSE"@,
        "README.md"@ != "LICENSE"@,
{
    reveal_strlit("plugin.toml");
    reveal_strlit("plugin.wasm");
    reveal_strlit("signature.ed25519");
    reveal_strlit("README.md");
    reveal_strlit("LICENSE");
    assert("plugin.toml"@[7] == 't' && "plugin.wasm"@[7] == 'w' && "signature.ed25519"@[0] == 's'
        && "README.md"@[0] == 'R' && "LICENSE"@[0] == 'L' && "plugin.toml"@[0] == 'p'
        && "plugin.wasm"@[0] == 'p');
}

/// Files are taken in one after the other, and the first that is refused refuses
/// the package.
pub proof fn law_first_refused_file_refuses(
    items: Seq<ItemModel>,
    data: Seq<Option<Seq<u8>>>,
    n: int,
    m: int,
)
    requires
        0 <= n <= m,
    ensures
        found_in(items, data, n) is Err ==> found_in(items, data, m) == found_in(items, data, n),
        found_in(items, data, 0) == Ok::<Found, PackageFault>(
            Found { manifest: None, component: None, readme: None, license: None, signature: None },
        ),
        n > 0 && found_in(items, data, n - 1) is Ok ==> found_in(items, data, n) == found_with(
            found_in(items, data, n - 1)->Ok_0,
            items[n - 1],
            data[n - 1],
        ),
    decreases m,
{
    if n < m {
        law_first_refused_file_refuses(items, data, n, m - 1);
    }
}

/// A package must hold a manifest and a component, and the component must be
/// WebAssembly: eight bytes or more that begin with its mark.
pub proof fn law_packages_must_be_whole(f: Found)
    ensures
        f.manifest is None ==> content_fault(f) == Some(PackageFault::MissingManifest),
        f.manifest is Some && f.component is None ==> content_fault(f) == Some(
            PackageFault::MissingComponent,
        ),
        f.manifest is Some && f.component is Some ==> (content_fault(f) is None <==> {
            let c = f.component->0;
            c.len() >= 8 && c.take(4) == seq![0u8, 0x61u8, 0x73u8, 0x6du8]
        }),
        f.manifest is Some && f.component is Some && content_fault(f) is Some ==> content_fault(f)
            == Some(PackageFault::BadMagic),
{
    if f.component is Some {
        let c = f.component->0;
        let mark = seq![0u8, 0x61u8, 0x73u8, 0x6du8];
        if c.len() >= 8 {
            assert(c.take(4)[0] == c[0] && c.take(4)[1] == c[1] && c.take(4)[2] == c[2] && c.take(
                4,
            )[3] == c[3]);
            if is_wasm(c) {
                assert(c.take(4) =~= mark);
            }
        }
    }
}

/// A signature is its 64 bytes as they are, or those that its text stands for in
/// base64; any other number of bytes is none.
pub proof fn law_signatures_are_raw_or_base64(entry: Seq<u8>, bytes: Seq<u8>)
    ensures
        entry.len() == 64 ==> signature_bytes(entry) == Ok::<Seq<u8>, PackageFault>(entry),
        entry.len() != 64 && base64_bytes(trim_of(lossy_text(entry))) == Ok::<Seq<u8>, Seq<char>>(
            bytes,
        ) && bytes.len() == 64 ==> signature_bytes(entry) == Ok::<Seq<u8>, PackageFault>(bytes),
        signature_bytes(entry) matches Ok(s) ==> s.len() == 64,
        entry.len() != 64 && base64_bytes(trim_of(lossy_text(entry))) is Err ==> signature_bytes(
            entry,
        ) is Err,
{
}

/// What is signed is the component and the manifest behind it, and one trusted key
/// that accepts the signature is enough; further keys only trust more.
pub proof fn law_one_trusted_key_is_enough(
    keys: Seq<[u8; 32]>,
    i: int,
    more: Seq<[u8; 32]>,
    component: Seq<u8>,
    manifest: Seq<char>,
    sig: Seq<u8>,
)
    ensures
        ({
            let message = sha256_of(component + encode_utf8(manifest));
            &&& signed_digest(component, manifest) == message
            &&& 0 <= i < keys.len() && ed25519_accepts(keys[i]@, message, sig)
                ==> some_key_accepts(keys, message, sig)
            &&& some_key_accepts(keys, message, sig) ==> some_key_accepts(keys + more, message, sig)
            &&& (forall|k: int|
                0 <= k < keys.len() ==> !ed25519_accepts((#[trigger] keys[k])@, message, sig))
                ==> !some_key_accepts(keys, message, sig)
        }),
{
    let message = sha256_of(component + encode_utf8(manifest));
    if some_key_accepts(keys, message, sig) {
        let k = choose|k: int|
            0 <= k < keys.len() && ed25519_accepts((#[trigger] keys[k])@, message, sig);
        assert((keys + more)[k] == keys[k]);
    }
}

/// An archive of at most 64 MiB without sparse files can be walked, and a larger
/// one cannot.
pub proof fn law_plain_archives_can_be_walked(bytes: Seq<u8>)
    ensures
        bytes.len() > 67_108_864 ==> !can_walk(bytes),
        bytes.len() <= 67_108_864 && (forall|at: int|
            0 <= at <= bytes.len() - 512 ==> #[trigger] bytes[at + 156] != 0x53) ==> can_walk(bytes),
{
    if bytes.len() <= 67_108_864 && (forall|at: int|
        0 <= at <= bytes.len() - 512 ==> #[trigger] bytes[at + 156] != 0x53) {
        assert forall|at: int| !#[trigger] extends_sparse(bytes, at) by {
            if extends_sparse(bytes, at) {
                assert(bytes[at + 156] != 0x53);
            }
        }
    }
}

/// A package holds what was found, each file in its own place.
pub proof fn law_packages_hold_what_was_found(p: Package, f: Found)
    requires
        holds(p, f),
    ensures
        f.manifest == Some(p.manifest_toml@),
        f.component == Some(p.component@),
        f.readme == crate::types::text_in(p.readme),
        f.license == crate::types::text_in(p.license),
        p.signature is None <==> f.signature is None,
        p.signature matches Some(s) ==> f.signature == Some(s@),
{
}

/// Of a text that may be too long one byte more than its limit is read, and of any
/// other file all.
pub proof fn law_texts_are_read_up_to_their_limit(path: Seq<char>, size: u64)
    ensures
        ({
            let name = last_name(split_of(path, '/'));
            let most = most_of(ItemModel::Entry { path, size });
            &&& name == "README.md"@ || name == "LICENSE"@ ==> most == 2_097_153
            &&& name != "README.md"@ && name != "LICENSE"@ ==> most == u64::MAX
        }),
{
}

/// A file's content is read where the file has a place and is within its limit.
pub proof fn law_only_wanted_files_are_read(path: Seq<char>, size: u64)
    requires
        path_fault(path) is None,
    ensures
        ({
            let name = last_name(split_of(path, '/'));
            let wanted = needs_data(ItemModel::Entry { path, size });
            &&& name == "plugin.toml"@ ==> (wanted <==> size <= 2_097_152)
            &&& name == "plugin.wasm"@ ==> (wanted <==> size <= 67_108_864)
            &&& name == "signature.ed25519"@ ==> (wanted <==> size <= 4096)
            &&& name == "README.md"@ || name == "LICENSE"@ ==> wanted
        }),
{
    lemma_file_names();
}

} // verus!
