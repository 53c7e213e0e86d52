//! The asset files of a project archive. An asset is stored once, under a
//! name made of the MD5 digest of its contents and its file extension.

use vstd::prelude::*;
use vstd::string::StringExecFns;

verus! {

/// The MD5 digest of `data`, written as lower-case hexadecimal digits.
pub uninterp spec fn md5_hex(data: Seq<u8>) -> Seq<char>;

/// `md5::compute`, and the digest it gives formatted with `{:x}`: the
/// result is the digest of the bytes, in lower-case hexadecimal, and
/// depends on the bytes alone.
#[verifier::external_body]
fn digest_hex(data: &[u8]) -> (r: String)
    ensures
        r@ == md5_hex(data@),
{
    format!("{:x}", md5::compute(data))
}

/// The name of the archive entry of an asset with the digest `md5`: the
/// digest, a dot, and the extension of the asset's file if it has one.
pub open spec fn asset_name(md5: Seq<char>, extension: Option<Seq<char>>) -> Seq<char> {
    match extension {
        Some(e) => md5 + seq!['.'] + e,
        None => md5 + seq!['.'],
    }
}

/// The view of an optional string slice.
pub open spec fn option_view(s: Option<&str>) -> Option<Seq<char>> {
    match s {
        Some(e) => Some(e@),
        None => None,
    }
}

/// Gives the name of the archive entry of an asset with the digest `md5`.
pub fn asset_file_name(md5: &str, extension: Option<&str>) -> (r: String)
    ensures
        r@ == asset_name(md5@, option_view(extension)),
{
    let mut name = md5.to_owned();
    name.push('.');
    match extension {
        Some(e) => {
            name.append(e);
        },
        None => {},
    }
    name
}

/// What became of an asset that was offered to an [`AssetStore`]: its
/// digest, and the name of the archive entry to write it to, if it has to
/// be written.
#[derive(Debug, PartialEq, Eq)]
pub struct StoredAsset {
    pub md5: String,
    pub file_name: Option<String>,
}

/// The assets that an archive holds so far, by digest.
pub struct AssetStore {
    seen: Vec<String>,
}

impl View for AssetStore {
    type V = Set<Seq<char>>;

    closed spec fn view(&self) -> Set<Seq<char>> {
        Set::new(|d: Seq<char>| exists|i: int| 0 <= i < self.seen.len() && self.seen[i]@ == d)
    }
}

impl AssetStore {
    /// The store of an archive that holds no asset yet.
    pub fn new() -> (r: Self)
        ensures
            r@ == Set::<Seq<char>>::empty(),
    {
        let r = AssetStore { seen: Vec::new() };
        assert(r@ =~= Set::<Seq<char>>::empty());
        r
    }

    /// Tells whether the archive holds an asset with the digest `md5`.
    pub fn contains(&self, md5: &str) -> (r: bool)
        ensures
            r == self@.contains(md5@),
    {
        let mut i: usize = 0;
        while i < self.seen.len()
            invariant
                i <= self.seen.len(),
                forall|k: int| 0 <= k < i ==> self.seen[k]@ != md5@,
            decreases self.seen.len() - i,
        {
            if self.seen[i].as_str().eq(md5) {
                return true;
            }
            i = i + 1;
        }
        false
    }

    /// Offers an asset with the digest `md5`, whose file has the extension
    /// `extension`, to the archive. The asset has to be written, under the
    /// name that is returned, exactly if the archive held no asset with
    /// that digest; after the call it counts as held.
    pub fn record(&mut self, md5: String, extension: Option<&str>) -> (r: StoredAsset)
        ensures
            r.md5@ == md5@,
            final(self)@ == old(self)@.insert(md5@),
            r.file_name is Some <==> !old(self)@.contains(md5@),
            r.file_name matches Some(name) ==> name@ == asset_name(md5@, option_view(extension)),
    {
        if self.contains(md5.as_str()) {
            assert(self@ =~= self@.insert(md5@));
            StoredAsset { md5, file_name: None }
        } else {
            let file_name = asset_file_name(md5.as_str(), extension);
            let ghost before = self.seen@;
            self.seen.push(md5.clone());
            assert(self@ =~= old(self)@.insert(md5@)) by {
                assert forall|d: Seq<char>|
                    old(self)@.insert(md5@).contains(d) implies self@.contains(d) by {
                    if d == md5@ {
                        assert(self.seen[before.len() as int]@ == d);
                    } else {
                        let i = choose|i: int| 0 <= i < before.len() && before[i]@ == d;
                        assert(self.seen[i]@ == d);
                    }
                }
                assert forall|d: Seq<char>| self@.contains(d) implies old(self)@.insert(
                    md5@,
                ).contains(d) by {
                    let i = choose|i: int| 0 <= i < self.seen.len() && self.seen[i]@ == d;
                    if i < before.len() {
                        assert(before[i]@ == d);
                    }
                }
            }
            StoredAsset { md5, file_name: Some(file_name) }
        }
    }

    /// Offers the asset with the contents `contents`, whose file has the
    /// extension `extension`, to the archive: takes the digest of the
    /// contents and records it (see [`AssetStore::record`]).
    pub fn add(&mut self, contents: &[u8], extension: Option<&str>) -> (r: StoredAsset)
        ensures
            r.md5@ == md5_hex(contents@),
            final(self)@ == old(self)@.insert(md5_hex(contents@)),
            r.file_name is Some <==> !old(self)@.contains(md5_hex(contents@)),
            r.file_name matches Some(name) ==> name@ == asset_name(
                md5_hex(contents@),
                option_view(extension),
            ),
    {
        let md5 = digest_hex(contents);
        self.record(md5, extension)
    }
}

} // verus!
