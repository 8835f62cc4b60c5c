//! MD5 digests of files and of directory trees.

use vstd::prelude::*;
use vstd::string::*;
use vstd::utf8::*;

use crate::order::{in_order, in_order_of_rearranged, sort, text_order, text_order_is_total};
use crate::text::{concat, concat3, join, joined};

verus! {

/// The sixteen bytes of the MD5 digest of `data`.
pub uninterp spec fn md5_digest(data: Seq<u8>) -> Seq<u8>;

/// Calls `md5::compute` and takes the bytes out of its digest. The bytes are
/// `md5_digest` of the data; which bytes those are is left to the crate.
#[verifier::external_body]
fn md5_compute(data: &[u8]) -> (r: [u8; 16])
    ensures
        r@ == md5_digest(data@),
{
    md5::compute(data).0
}

/// The hexadecimal digit for `n`, in lower case.
pub open spec fn hex_digit(n: int) -> char {
    "0123456789abcdef"@[n]
}

/// `bytes` in hexadecimal, two lower case digits for each byte.
pub open spec fn lower_hex(bytes: Seq<u8>) -> Seq<char>
    decreases bytes.len(),
{
    if bytes.len() == 0 {
        Seq::empty()
    } else {
        lower_hex(bytes.drop_last()) + seq![
            hex_digit(bytes.last() as int / 16),
            hex_digit(bytes.last() as int % 16),
        ]
    }
}

/// The MD5 digest of `data` in hexadecimal.
pub open spec fn md5_hex(data: Seq<u8>) -> Seq<char> {
    lower_hex(md5_digest(data))
}

/// Hexadecimal text is twice as long as what it stands for.
pub proof fn lower_hex_length(bytes: Seq<u8>)
    ensures
        lower_hex(bytes).len() == 2 * bytes.len(),
    decreases bytes.len(),
{
    if bytes.len() > 0 {
        lower_hex_length(bytes.drop_last());
    }
}

/// `bytes` in hexadecimal.
pub fn hex_text(bytes: &[u8]) -> (r: String)
    ensures
        r@ == lower_hex(bytes@),
{
    let digits: &'static str = "0123456789abcdef";
    proof {
        reveal_strlit("0123456789abcdef");
    }
    let mut r = String::new();
    let mut i: usize = 0;
    while i < bytes.len()
        invariant
            i <= bytes.len(),
            digits@ == "0123456789abcdef"@,
            digits@.len() == 16,
            r@ == lower_hex(bytes@.take(i as int)),
        decreases bytes.len() - i,
    {
        let b = bytes[i];
        let high: usize = (b / 16) as usize;
        let low: usize = (b % 16) as usize;
        r.append(digits.substring_char(high, high + 1));
        r.append(digits.substring_char(low, low + 1));
        proof {
            let more = bytes@.take(i + 1);
            assert(more.drop_last() =~= bytes@.take(i as int));
            assert(more.last() == b);
            assert(r@ =~= lower_hex(more));
        }
        i = i + 1;
    }
    assert(bytes@.take(i as int) =~= bytes@);
    r
}

/// The MD5 digest of `data` in hexadecimal.
pub fn md5_text(data: &[u8]) -> (r: String)
    ensures
        r@ == md5_hex(data@),
        r@.len() == 32,
{
    let digest = md5_compute(data);
    proof {
        lower_hex_length(md5_digest(data@));
    }
    hex_text(&digest)
}

/// Why the content of a file is not there.
#[derive(Debug, PartialEq, Eq)]
pub enum FileFailure {
    /// The file could not be opened.
    Open(String),
    /// The file could not be read to its end.
    Read(String),
}

/// One entry met while a directory is walked.
#[derive(Debug, PartialEq, Eq)]
pub enum DirItem {
    /// The entry itself could not be read.
    Unreadable(String),
    /// A file, with its content.
    File { path: String, contents: Result<Vec<u8>, FileFailure> },
    /// A directory, with its entries in the order they were met.
    Dir { path: String, listing: Result<Vec<DirItem>, String> },
}

/// The digest of the file at `path`, or why there is none.
pub open spec fn file_md5(path: Seq<char>, contents: Result<Vec<u8>, FileFailure>) -> Result<
    Seq<char>,
    Seq<char>,
> {
    match contents {
        Ok(data) => Ok(md5_hex(data@)),
        Err(FileFailure::Open(e)) => Err("Failed to open file "@ + path + ": "@ + e@),
        Err(FileFailure::Read(e)) => Err("Failed to read file "@ + path + ": "@ + e@),
    }
}

/// What a walk has found: the digests of the files before the first failure, and
/// that failure.
pub ghost struct Walk {
    pub hashes: Seq<Seq<char>>,
    pub failure: Option<Seq<char>>,
}

/// The walk of one entry.
pub open spec fn walk_item(item: DirItem) -> Walk
    decreases item,
{
    match item {
        DirItem::Unreadable(e) => Walk {
            hashes: Seq::empty(),
            failure: Some("Failed to read directory entry: "@ + e@),
        },
        DirItem::File { path, contents } => match file_md5(path@, contents) {
            Ok(hash) => Walk { hashes: seq![hash], failure: None },
            Err(e) => Walk { hashes: Seq::empty(), failure: Some(e) },
        },
        DirItem::Dir { path, listing } => walk_directory(path@, listing),
    }
}

/// The walk of entries in order, up to the first failure.
pub open spec fn walk_items(items: Seq<DirItem>) -> Walk
    decreases items,
{
    if items.len() == 0 {
        Walk { hashes: Seq::empty(), failure: None }
    } else {
        let before = walk_items(items.drop_last());
        if before.failure is Some {
            before
        } else {
            let last = walk_item(items.last());
            Walk { hashes: before.hashes + last.hashes, failure: last.failure }
        }
    }
}

/// The walk of the directory at `path`.
pub open spec fn walk_directory(path: Seq<char>, listing: Result<Vec<DirItem>, String>) -> Walk
    decreases listing,
{
    match listing {
        Ok(items) => walk_items(items@),
        Err(e) => Walk {
            hashes: Seq::empty(),
            failure: Some("Failed to read directory "@ + path + ": "@ + e@),
        },
    }
}

/// The text whose digest stands for a directory: the digests of its files in order,
/// each on a line of its own.
pub open spec fn payload_of(hashes: Seq<Seq<char>>) -> Seq<char> {
    let text = joined(in_order(hashes), "\n"@);
    if text.len() == 0 {
        text
    } else {
        text + "\n"@
    }
}

/// The digest of the directory at `path`, or why there is none.
pub open spec fn directory_md5(path: Seq<char>, listing: Result<Vec<DirItem>, String>) -> Result<
    Seq<char>,
    Seq<char>,
> {
    let walk = walk_directory(path, listing);
    match walk.failure {
        Some(e) => Err(e),
        None => Ok(md5_hex(encode_utf8(payload_of(walk.hashes)))),
    }
}

/// A result with its value and its error as sequences of characters.
pub open spec fn text_result(r: Result<String, String>) -> Result<Seq<char>, Seq<char>> {
    match r {
        Ok(v) => Ok(v@),
        Err(e) => Err(e@),
    }
}

/// The digest of the file at `path`, by what opening and reading it gave.
pub fn calculate_file_md5(path: &str, contents: &Result<Vec<u8>, FileFailure>) -> (r: Result<
    String,
    String,
>)
    ensures
        text_result(r) == file_md5(path@, *contents),
        r is Ok ==> r->Ok_0@.len() == 32,
        match *contents {
            Ok(data) => r is Ok && r->Ok_0@ == md5_hex(data@),
            Err(FileFailure::Open(e)) => r is Err && r->Err_0@ == "Failed to open file "@ + path@
                + ": "@ + e@,
            Err(FileFailure::Read(e)) => r is Err && r->Err_0@ == "Failed to read file "@ + path@
                + ": "@ + e@,
        },
{
    match contents {
        Ok(data) => Ok(md5_text(data.as_slice())),
        Err(FileFailure::Open(e)) => {
            let mut text = concat3("Failed to open file ", path, ": ");
            text.append(e.as_str());
            Err(text)
        },
        Err(FileFailure::Read(e)) => {
            let mut text = concat3("Failed to read file ", path, ": ");
            text.append(e.as_str());
            Err(text)
        },
    }
}

/// What a walk leaves behind: the digests found, appended, and the failure as an error.
pub open spec fn walked(
    before: Seq<Seq<char>>,
    after: Seq<Seq<char>>,
    r: Result<(), String>,
    walk: Walk,
) -> bool {
    &&& after == before + walk.hashes
    &&& match r {
        Ok(_) => walk.failure is None,
        Err(e) => walk.failure == Some(e@),
    }
}

/// Whether every text of `after` behind those of `before` has the length of a digest.
pub open spec fn adds_digests(before: Seq<Seq<char>>, after: Seq<Seq<char>>) -> bool {
    forall|i: int| before.len() <= i < after.len() ==> (#[trigger] after[i]).len() == 32
}

/// Appends the digests of the files that one entry stands for.
fn collect_item_hashes(item: &DirItem, hashes: &mut Vec<String>) -> (r: Result<(), String>)
    ensures
        walked(old(hashes).deep_view(), final(hashes).deep_view(), r, walk_item(*item)),
        adds_digests(old(hashes).deep_view(), final(hashes).deep_view()),
    decreases item,
{
    let ghost before = hashes.deep_view();
    match item {
        DirItem::Unreadable(e) => {
            assert(before =~= before + walk_item(*item).hashes);
            Err(concat("Failed to read directory entry: ", e.as_str()))
        },
        DirItem::File { path, contents } => match calculate_file_md5(path.as_str(), contents) {
            Ok(hash) => {
                let ghost h = hash@;
                hashes.push(hash);
                assert(hashes.deep_view() =~= before + seq![h]);
                Ok(())
            },
            Err(e) => {
                assert(before =~= before + walk_item(*item).hashes);
                Err(e)
            },
        },
        DirItem::Dir { path, listing } => collect_directory_hashes(path.as_str(), listing, hashes),
    }
}

/// Appends the digests of all files below the directory at `path`, by what listing it
/// gave. Stops at the first failure, and keeps what was found before it.
pub fn collect_directory_hashes(
    path: &str,
    listing: &Result<Vec<DirItem>, String>,
    hashes: &mut Vec<String>,
) -> (r: Result<(), String>)
    ensures
        walked(
            old(hashes).deep_view(),
            final(hashes).deep_view(),
            r,
            walk_directory(path@, *listing),
        ),
        adds_digests(old(hashes).deep_view(), final(hashes).deep_view()),
        final(hashes).deep_view() == old(hashes).deep_view() + walk_directory(
            path@,
            *listing,
        ).hashes,
        r is Ok <==> walk_directory(path@, *listing).failure is None,
        r is Err ==> walk_directory(path@, *listing).failure == Some(r->Err_0@),
    decreases listing,
{
    let ghost before = hashes.deep_view();
    match listing {
        Ok(items) => {
            let mut i: usize = 0;
            proof {
                assert(before + walk_items(items@.take(0)).hashes =~= before);
            }
            while i < items.len()
                invariant
                    i <= items.len(),
                    *listing == Ok::<Vec<DirItem>, String>(*items),
                    before == old(hashes).deep_view(),
                    walk_items(items@.take(i as int)).failure is None,
                    hashes.deep_view() == before + walk_items(items@.take(i as int)).hashes,
                    adds_digests(before, hashes.deep_view()),
                decreases items.len() - i,
            {
                proof {
                    assert(items@.take(i + 1).drop_last() =~= items@.take(i as int));
                    assert(items@.take(i + 1).last() == items@[i as int]);
                }
                let ghost found = hashes.deep_view();
                let r = collect_item_hashes(&items[i], hashes);
                proof {
                    assert forall|j: int|
                        before.len() <= j < hashes.deep_view().len() implies (
                    #[trigger] hashes.deep_view()[j]).len() == 32 by {
                        if j < found.len() {
                            assert(hashes.deep_view()[j] == found[j]);
                        }
                    }
                    assert(hashes.deep_view() =~= before + walk_items(items@.take(i + 1)).hashes);
                }
                if let Err(e) = r {
                    proof {
                        lemma_failure_stays(items@, i + 1);
                    }
                    return Err(e);
                }
                i = i + 1;
            }
            assert(items@.take(i as int) =~= items@);
            Ok(())
        },
        Err(e) => {
            assert(before =~= before + walk_directory(path@, *listing).hashes);
            let mut text = concat3("Failed to read directory ", path, ": ");
            text.append(e.as_str());
            Err(text)
        },
    }
}

proof fn lemma_failure_stays(items: Seq<DirItem>, i: int)
    requires
        0 <= i <= items.len(),
        walk_items(items.take(i)).failure is Some,
    ensures
        walk_items(items) == walk_items(items.take(i)),
    decreases items.len() - i,
{
    if i == items.len() {
        assert(items.take(i) =~= items);
    } else {
        assert(items.take(i + 1).drop_last() =~= items.take(i));
        lemma_failure_stays(items, i + 1);
    }
}

/// The text whose digest stands for a directory, by the digests of its files.
pub fn directory_payload(hashes: Vec<String>) -> (r: String)
    ensures
        r@ == payload_of(hashes.deep_view()),
        hashes.deep_view() != seq![Seq::<char>::empty()] ==> r@ == lines_of(
            in_order(hashes.deep_view()),
        ),
{
    proof {
        if hashes.deep_view() != seq![Seq::<char>::empty()] {
            payload_is_sorted_lines(hashes.deep_view());
        }
    }
    let sorted = sort(hashes);
    let mut payload = join(&sorted, "\n");
    if !payload.as_str().is_empty() {
        payload.append("\n");
    }
    payload
}

/// The digest of the directory at `path`, by what listing it gave: that of one line for
/// each digest of a file below it, in order.
pub fn calculate_directory_md5(path: &str, listing: &Result<Vec<DirItem>, String>) -> (r: Result<
    String,
    String,
>)
    ensures
        text_result(r) == directory_md5(path@, *listing),
        match walk_directory(path@, *listing) {
            Walk { hashes, failure: None } => r is Ok && r->Ok_0@.len() == 32 && r->Ok_0@
                == md5_hex(encode_utf8(lines_of(in_order(hashes)))),
            Walk { hashes, failure: Some(e) } => r is Err && r->Err_0@ == e,
        },
{
    let mut hashes: Vec<String> = Vec::new();
    let r = collect_directory_hashes(path, listing, &mut hashes);
    match r {
        Err(e) => Err(e),
        Ok(_) => {
            proof {
                let found = walk_directory(path@, *listing).hashes;
                assert(hashes.deep_view() =~= found);
                if found == seq![Seq::<char>::empty()] {
                    assert(found[0].len() == 32);
                }
                payload_is_sorted_lines(found);
            }
            let payload = directory_payload(hashes);
            Ok(md5_text(payload.as_str().as_bytes()))
        },
    }
}

/// The contents of the files below an entry, in the order of the walk.
pub open spec fn item_contents(item: DirItem) -> Seq<Seq<u8>>
    decreases item,
{
    match item {
        DirItem::File { path, contents: Ok(data) } => seq![data@],
        DirItem::Dir { path, listing: Ok(items) } => all_contents(items@),
        _ => Seq::empty(),
    }
}

/// The contents of the files below the entries, in the order of the walk.
pub open spec fn all_contents(items: Seq<DirItem>) -> Seq<Seq<u8>>
    decreases items,
{
    if items.len() == 0 {
        Seq::empty()
    } else {
        all_contents(items.drop_last()) + item_contents(items.last())
    }
}

proof fn lemma_item_hashes(item: DirItem)
    requires
        walk_item(item).failure is None,
    ensures
        walk_item(item).hashes == item_contents(item).map_values(|d: Seq<u8>| md5_hex(d)),
    decreases item,
{
    match item {
        DirItem::File { path, contents } => {
            assert(walk_item(item).hashes =~= item_contents(item).map_values(
                |d: Seq<u8>| md5_hex(d),
            ));
        },
        DirItem::Dir { path, listing } => {
            walk_finds_every_file(listing->Ok_0@);
        },
        DirItem::Unreadable(e) => {},
    }
}

/// A walk without a failure finds the digest of every file below the directory, at
/// any depth, and nothing else.
pub proof fn walk_finds_every_file(items: Seq<DirItem>)
    requires
        walk_items(items).failure is None,
    ensures
        walk_items(items).hashes == all_contents(items).map_values(|d: Seq<u8>| md5_hex(d)),
    decreases items,
{
    if items.len() > 0 {
        walk_finds_every_file(items.drop_last());
        lemma_item_hashes(items.last());
    }
    assert(walk_items(items).hashes =~= all_contents(items).map_values(|d: Seq<u8>| md5_hex(d)));
}

proof fn lemma_map_multiset(a: Seq<Seq<u8>>, b: Seq<Seq<u8>>, f: spec_fn(Seq<u8>) -> Seq<char>)
    requires
        a.to_multiset() == b.to_multiset(),
    ensures
        a.map_values(f).to_multiset() == b.map_values(f).to_multiset(),
    decreases a.len(),
{
    a.to_multiset_ensures();
    b.to_multiset_ensures();
    assert(a.len() == b.len());
    if a.len() == 0 {
        assert(a.map_values(f) =~= b.map_values(f));
    } else {
        assert(a.contains(a[0]));
        assert(a.to_multiset().count(a[0]) > 0);
        assert(b.contains(a[0]));
        let k = choose|k: int| 0 <= k < b.len() && b[k] == a[0];
        vstd::seq_lib::to_multiset_remove(a, 0);
        vstd::seq_lib::to_multiset_remove(b, k);
        lemma_map_multiset(a.remove(0), b.remove(k), f);
        let fa = a.map_values(f);
        let fb = b.map_values(f);
        vstd::seq_lib::to_multiset_remove(fa, 0);
        vstd::seq_lib::to_multiset_remove(fb, k);
        assert(a.remove(0).map_values(f) =~= fa.remove(0));
        assert(b.remove(k).map_values(f) =~= fb.remove(k));
        fa.to_multiset_ensures();
        fb.to_multiset_ensures();
        assert(fa.contains(fa[0]) && fb.contains(fb[k]));
        assert(fa.to_multiset().count(fa[0]) > 0 && fb.to_multiset().count(fb[k]) > 0);
        assert(fa.to_multiset() =~= fa.to_multiset().remove(fa[0]).insert(fa[0]));
        assert(fb.to_multiset() =~= fb.to_multiset().remove(fb[k]).insert(fb[k]));
    }
}

/// The digest of a directory depends only on which contents its files have and how
/// often: not on the names, nor on the order in which the entries are met, nor on how
/// the files are spread over subdirectories.
pub proof fn directory_md5_depends_on_contents(
    path: Seq<char>,
    items: Vec<DirItem>,
    other_path: Seq<char>,
    other: Vec<DirItem>,
)
    requires
        walk_items(items@).failure is None,
        walk_items(other@).failure is None,
        all_contents(items@).to_multiset() == all_contents(other@).to_multiset(),
    ensures
        directory_md5(path, Ok(items)) == directory_md5(other_path, Ok(other)),
        directory_md5(path, Ok(items)) is Ok,
{
    walk_finds_every_file(items@);
    walk_finds_every_file(other@);
    lemma_map_multiset(
        all_contents(items@),
        all_contents(other@),
        |d: Seq<u8>| md5_hex(d),
    );
    in_order_of_rearranged(walk_items(items@).hashes, walk_items(other@).hashes);
}

/// Each text of `v` followed by a line feed.
pub open spec fn lines_of(v: Seq<Seq<char>>) -> Seq<char>
    decreases v.len(),
{
    if v.len() == 0 {
        Seq::empty()
    } else {
        lines_of(v.drop_last()) + v.last() + "\n"@
    }
}

proof fn lemma_joined_lines(v: Seq<Seq<char>>)
    requires
        v.len() > 0,
    ensures
        joined(v, "\n"@) + "\n"@ == lines_of(v),
    decreases v.len(),
{
    if v.len() == 1 {
        assert(v.drop_last() =~= Seq::empty());
        assert(lines_of(v.drop_last()) =~= Seq::empty());
        assert(joined(v, "\n"@) + "\n"@ =~= lines_of(v));
    } else {
        lemma_joined_lines(v.drop_last());
        assert(joined(v, "\n"@) + "\n"@ =~= lines_of(v));
    }
}

/// The text behind the digest of a directory is one line for each file digest, in
/// lexicographic order; it is empty for a directory without files. (A single empty text,
/// which is no digest, gives no line.)
pub proof fn payload_is_sorted_lines(hashes: Seq<Seq<char>>)
    requires
        hashes != seq![Seq::<char>::empty()],
    ensures
        payload_of(hashes) == lines_of(in_order(hashes)),
{
    text_order_is_total();
    hashes.lemma_sort_by_ensures(text_order());
    let sorted = in_order(hashes);
    sorted.to_multiset_ensures();
    hashes.to_multiset_ensures();
    assert(sorted.len() == hashes.len());
    if sorted.len() > 0 {
        lemma_joined_lines(sorted);
        reveal_strlit("\n");
        if joined(sorted, "\n"@).len() == 0 {
            assert(sorted.len() == 1);
            assert(sorted[0].len() == 0);
            assert(hashes.contains(hashes[0]));
            assert(sorted.to_multiset().count(hashes[0]) > 0);
            assert(sorted.contains(hashes[0]));
            assert(hashes[0] =~= Seq::empty());
            assert(hashes =~= seq![Seq::<char>::empty()]);
        }
    }
}

/// Each byte is written as two digits, the one for its sixteens before the one for its
/// ones.
pub proof fn two_digits_for_each_byte(bytes: Seq<u8>, i: int)
    requires
        0 <= i < bytes.len(),
    ensures
        lower_hex(bytes).len() == 2 * bytes.len(),
        lower_hex(bytes)[2 * i] == "0123456789abcdef"@[bytes[i] as int / 16],
        lower_hex(bytes)[2 * i + 1] == "0123456789abcdef"@[bytes[i] as int % 16],
    decreases bytes.len(),
{
    lower_hex_length(bytes);
    lower_hex_length(bytes.drop_last());
    if i < bytes.len() - 1 {
        two_digits_for_each_byte(bytes.drop_last(), i);
        assert(bytes.drop_last()[i] == bytes[i]);
        assert(lower_hex(bytes)[2 * i] == lower_hex(bytes.drop_last())[2 * i]);
        assert(lower_hex(bytes)[2 * i + 1] == lower_hex(bytes.drop_last())[2 * i + 1]);
    }
}

/// The text of a digest writes down the digest of the whole data, byte by byte.
pub proof fn digest_text_writes_digest_down(data: Seq<u8>, i: int)
    requires
        0 <= i < md5_digest(data).len(),
    ensures
        md5_hex(data).len() == 2 * md5_digest(data).len(),
        md5_hex(data)[2 * i] == "0123456789abcdef"@[md5_digest(data)[i] as int / 16],
        md5_hex(data)[2 * i + 1] == "0123456789abcdef"@[md5_digest(data)[i] as int % 16],
{
    two_digits_for_each_byte(md5_digest(data), i);
}

/// What one entry gives to a walk: a file its digest, a directory what its own entries
/// give, and what cannot be read its failure.
pub proof fn entries_give_digests_or_failures(
    path: String,
    data: Vec<u8>,
    items: Vec<DirItem>,
    e: String,
)
    ensures
        walk_item(DirItem::File { path, contents: Ok(data) }) == (Walk {
            hashes: seq![md5_hex(data@)],
            failure: None,
        }),
        walk_item(DirItem::File { path, contents: Err(FileFailure::Open(e)) }) == (Walk {
            hashes: Seq::empty(),
            failure: Some("Failed to open file "@ + path@ + ": "@ + e@),
        }),
        walk_item(DirItem::File { path, contents: Err(FileFailure::Read(e)) }) == (Walk {
            hashes: Seq::empty(),
            failure: Some("Failed to read file "@ + path@ + ": "@ + e@),
        }),
        walk_item(DirItem::Dir { path, listing: Ok(items) }) == walk_items(items@),
        walk_item(DirItem::Dir { path, listing: Err(e) }) == (Walk {
            hashes: Seq::empty(),
            failure: Some("Failed to read directory "@ + path@ + ": "@ + e@),
        }),
        walk_item(DirItem::Unreadable(e)) == (Walk {
            hashes: Seq::empty(),
            failure: Some("Failed to read directory entry: "@ + e@),
        }),
        walk_directory(path@, Ok(items)) == walk_items(items@),
        walk_directory(path@, Err(e)) == (Walk {
            hashes: Seq::empty(),
            failure: Some("Failed to read directory "@ + path@ + ": "@ + e@),
        }),
{
}

/// A walk takes one entry after the other, keeps all that it has found, and ends at the
/// first failure.
pub proof fn walk_goes_entry_by_entry(items: Seq<DirItem>, item: DirItem)
    ensures
        walk_items(Seq::empty()) == (Walk { hashes: Seq::empty(), failure: None }),
        walk_items(items).failure is None ==> walk_items(items.push(item)) == (Walk {
            hashes: walk_items(items).hashes + walk_item(item).hashes,
            failure: walk_item(item).failure,
        }),
        walk_items(items).failure is Some ==> walk_items(items.push(item)) == walk_items(items),
{
    assert(items.push(item).drop_last() =~= items);
}

/// The lines of texts stand one after the other, each with its line feed.
pub proof fn lines_one_by_one(v: Seq<Seq<char>>, text: Seq<char>)
    ensures
        lines_of(Seq::empty()) == Seq::<char>::empty(),
        lines_of(v.push(text)) == lines_of(v) + text + seq!['\n'],
{
    reveal_strlit("\n");
    assert("\n"@ =~= seq!['\n']);
    assert(v.push(text).drop_last() =~= v);
}

/// The digest of a directory is that of the lines of the digests of its files, in order,
/// however many there are; a failure of the walk takes its place.
pub proof fn directory_digest_is_of_sorted_lines(path: Seq<char>, items: Vec<DirItem>)
    requires
        walk_items(items@).hashes != seq![Seq::<char>::empty()],
    ensures
        walk_items(items@).failure is None ==> directory_md5(path, Ok(items)) == Ok::<
            Seq<char>,
            Seq<char>,
        >(md5_hex(encode_utf8(lines_of(in_order(walk_items(items@).hashes))))),
        walk_items(items@).failure is Some ==> directory_md5(path, Ok(items)) == Err::<
            Seq<char>,
            Seq<char>,
        >(walk_items(items@).failure->0),
{
    payload_is_sorted_lines(walk_items(items@).hashes);
}

} // verus!
