//! Archive locator: selects, from the records a tag-filtered search
//! returned, the archive transaction that stores a given block, and maps the
//! alternate storage-proof call's reply to an identifier.

use vstd::prelude::*;

verus! {

/// One record of a tag-filtered archive search: the transaction identifier,
/// the owning address, and the attached name/value tags.
#[derive(Debug, Clone, PartialEq)]
pub struct ArchiveRecord {
    pub id: String,
    pub owner: String,
    pub tags: Vec<(String, String)>,
}

/// The fixed identifier reported when no record matches.
pub open spec fn locator_sentinel() -> Seq<char> {
    "TXID Not Found"@
}

/// A record carries the given tag when some name/value pair equals it.
pub open spec fn has_tag(tags: Seq<(String, String)>, name: Seq<char>, value: Seq<char>) -> bool {
    exists|i: int| 0 <= i < tags.len() && #[trigger] tags[i].0@ == name && tags[i].1@ == value
}

/// A record matches when it is owned by the expected address and carries the
/// expected tag.
pub open spec fn record_matches(
    r: ArchiveRecord,
    owner: Seq<char>,
    tag_name: Seq<char>,
    tag_value: Seq<char>,
) -> bool {
    r.owner@ == owner && has_tag(r.tags@, tag_name, tag_value)
}

/// The identifier of the first matching record, else the sentinel.
pub open spec fn select_spec(
    records: Seq<ArchiveRecord>,
    owner: Seq<char>,
    tag_name: Seq<char>,
    tag_value: Seq<char>,
) -> Seq<char>
    decreases records.len(),
{
    if records.len() == 0 {
        locator_sentinel()
    } else if record_matches(records[0], owner, tag_name, tag_value) {
        records[0].id@
    } else {
        select_spec(records.drop_first(), owner, tag_name, tag_value)
    }
}

/// True iff the record carries the given name/value tag.
fn record_has_tag(r: &ArchiveRecord, tag_name: &String, tag_value: &String) -> (b: bool)
    ensures
        b == has_tag(r.tags@, tag_name@, tag_value@),
{
    let mut i: usize = 0;
    while i < r.tags.len()
        invariant
            i <= r.tags@.len(),
            forall|k: int| 0 <= k < i ==> !(#[trigger] r.tags@[k].0@ == tag_name@
                && r.tags@[k].1@ == tag_value@),
        decreases r.tags@.len() - i,
    {
        if crate::getters::string_eq(&r.tags[i].0, tag_name) && crate::getters::string_eq(
            &r.tags[i].1,
            tag_value,
        ) {
            return true;
        }
        i = i + 1;
    }
    false
}

/// Walks the search results newest-first and returns the identifier of the
/// first record owned by `owner` and tagged `tag_name: tag_value`; when none
/// matches, returns the fixed "not found" identifier.
#[verifier::loop_isolation(false)]
pub fn retrieve_block_from_arweave(
    records: &Vec<ArchiveRecord>,
    owner: &String,
    tag_name: &String,
    tag_value: &String,
) -> (r: String)
    ensures
        r@ == select_spec(records@, owner@, tag_name@, tag_value@),
{
    let ghost rs = records@;
    let mut i: usize = 0;
    proof {
        assert(rs.skip(0) =~= rs);
    }
    while i < records.len()
        invariant
            i <= rs.len(),
            select_spec(rs, owner@, tag_name@, tag_value@)
                == select_spec(rs.skip(i as int), owner@, tag_name@, tag_value@),
        decreases rs.len() - i,
    {
        proof {
            assert(rs.skip(i as int)[0] == rs[i as int]);
        }
        let record = &records[i];
        if crate::getters::string_eq(&record.owner, owner) && record_has_tag(
            record,
            tag_name,
            tag_value,
        ) {
            return record.id.clone();
        }
        proof {
            assert(rs.skip(i as int).drop_first() =~= rs.skip(i as int + 1));
        }
        i = i + 1;
    }
    proof {
        assert(rs.skip(rs.len() as int) =~= Seq::<ArchiveRecord>::empty());
    }
    "TXID Not Found".to_owned()
}

/// Maps the alternate storage-proof call's reply to an archive transaction
/// identifier: the reported identifier when the call answered, else the
/// empty default, under which the later gateway fetch finds nothing.
pub fn archive_tx_from_proof_result(result: Option<String>) -> (r: String)
    ensures
        match result {
            Some(id) => r == id,
            None => r@ == Seq::<char>::empty(),
        },
{
    match result {
        Some(id) => id,
        None => String::new(),
    }
}

} // verus!
