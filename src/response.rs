//! Responses of the service, and the text that reports them.
use vstd::prelude::*;
use crate::table::texts_view;
use crate::text::{decimal, decimal_text};

verus! {

/// What the service says about itself.
#[derive(Debug)]
pub struct RawInfo {
    pub name: String,
    pub cluster_name: String,
    pub cluster_uuid: String,
    pub version: RawInfoVersion,
    pub tagline: String,
}

/// The version details of the service.
#[derive(Debug)]
pub struct RawInfoVersion {
    pub number: String,
    pub build_flavor: String,
    pub build_type: String,
    pub build_hash: String,
    pub build_date: String,
    pub build_snapshot: bool,
    pub lucene_version: String,
    pub minimum_wire_compatibility_version: String,
    pub minimum_index_compatibility_version: String,
}

/// The answer to creating a collection.
#[derive(Debug)]
pub struct RawCreated {
    pub acknowledged: bool,
    pub index: String,
}

/// The answer to deleting a collection.
#[derive(Debug)]
pub struct RawDeleted {
    pub acknowledged: bool,
}

/// `not ` for an unacknowledged change, else nothing.
pub open spec fn ack_prefix(acknowledged: bool) -> Seq<char> {
    if acknowledged {
        Seq::empty()
    } else {
        "not "@
    }
}

/// The text of a flag.
pub open spec fn bool_text(b: bool) -> Seq<char> {
    if b {
        "true"@
    } else {
        "false"@
    }
}

/// The report of the service's details, one line each.
pub open spec fn info_lines(info: RawInfo) -> Seq<Seq<char>> {
    seq![
        "Name: "@ + info.name@,
        "Cluster Name: "@ + info.cluster_name@,
        "Cluster UUID: "@ + info.cluster_uuid@,
        "Version:"@,
        "  Number: "@ + info.version.number@,
        "  Build Flavor: "@ + info.version.build_flavor@,
        "  Build Type: "@ + info.version.build_type@,
        "  Build Hash: "@ + info.version.build_hash@,
        "  Build Date: "@ + info.version.build_date@,
        "  Build Snapshot: "@ + bool_text(info.version.build_snapshot),
        "  Lucene Version: "@ + info.version.lucene_version@,
        "  Minimum Wire Compatibility Version: "@ + info.version.minimum_wire_compatibility_version@,
        "  Minimum Index Compatibility Version: "@ + info.version.minimum_index_compatibility_version@,
        "Tagline: "@ + info.tagline@,
    ]
}

/// The report line of one result tag of a bulk write.
pub open spec fn summary_line(tag: Seq<char>, count: nat) -> Seq<char> {
    "Successfully "@ + tag + " "@ + decimal(count) + " documents"@
}

/// Whether the ping loop goes on after request number `seq`: always without
/// a count, else until `count` requests were sent.
pub open spec fn ping_goes_on(seq: usize, count: Option<usize>) -> bool {
    match count {
        Some(c) => seq < c,
        None => true,
    }
}

fn labelled(label: &str, value: &String) -> (r: String)
    ensures
        r@ == label@ + value@,
{
    let mut r = String::from_str(label);
    r.append(value.as_str());
    r
}

impl RawInfo {
    /// The report of the service's details, one line each.
    pub fn lines(&self) -> (r: Vec<String>)
        ensures
            texts_view(r@) == info_lines(*self),
    {
        proof {
            reveal_strlit("true");
            reveal_strlit("false");
        }
        let v = &self.version;
        let mut r: Vec<String> = Vec::new();
        r.push(labelled("Name: ", &self.name));
        r.push(labelled("Cluster Name: ", &self.cluster_name));
        r.push(labelled("Cluster UUID: ", &self.cluster_uuid));
        r.push(String::from_str("Version:"));
        r.push(labelled("  Number: ", &v.number));
        r.push(labelled("  Build Flavor: ", &v.build_flavor));
        r.push(labelled("  Build Type: ", &v.build_type));
        r.push(labelled("  Build Hash: ", &v.build_hash));
        r.push(labelled("  Build Date: ", &v.build_date));
        let snapshot = if v.build_snapshot {
            String::from_str("true")
        } else {
            String::from_str("false")
        };
        r.push(labelled("  Build Snapshot: ", &snapshot));
        r.push(labelled("  Lucene Version: ", &v.lucene_version));
        r.push(labelled("  Minimum Wire Compatibility Version: ", &v.minimum_wire_compatibility_version));
        r.push(labelled("  Minimum Index Compatibility Version: ", &v.minimum_index_compatibility_version));
        r.push(labelled("Tagline: ", &self.tagline));
        assert(texts_view(r@) =~= info_lines(*self));
        r
    }
}

impl RawCreated {
    /// The report of a created collection, saying whether it was acknowledged.
    pub fn message(&self) -> (r: String)
        ensures
            r@ == "Created index "@ + self.index@ + " ("@ + ack_prefix(self.acknowledged) + "acknowledged)"@,
    {
        proof {
            reveal_strlit("not ");
        }
        let mut r = String::from_str("Created index ");
        r.append(self.index.as_str());
        r.append(" (");
        if !self.acknowledged {
            r.append("not ");
        }
        r.append("acknowledged)");
        r
    }
}

impl RawDeleted {
    /// The report of a deleted collection, saying whether it was acknowledged.
    pub fn message(&self) -> (r: String)
        ensures
            r@ == "Deleted index ("@ + ack_prefix(self.acknowledged) + "acknowledged)"@,
    {
        proof {
            reveal_strlit("not ");
        }
        let mut r = String::from_str("Deleted index (");
        if !self.acknowledged {
            r.append("not ");
        }
        r.append("acknowledged)");
        r
    }
}

/// The report of a bulk write: one line per result tag, in order.
pub fn summary_lines(counts: &Vec<(String, usize)>) -> (r: Vec<String>)
    ensures
        r@.len() == counts@.len(),
        forall|i: int| 0 <= i < counts@.len() ==> #[trigger] r@[i]@ == summary_line(counts@[i].0@, counts@[i].1 as nat),
{
    let mut r: Vec<String> = Vec::new();
    let mut i: usize = 0;
    while i < counts.len()
        invariant
            0 <= i <= counts.len(),
            r@.len() == i,
            forall|k: int| 0 <= k < i ==> #[trigger] r@[k]@ == summary_line(counts@[k].0@, counts@[k].1 as nat),
        decreases counts.len() - i,
    {
        let mut line = String::from_str("Successfully ");
        line.append(counts[i].0.as_str());
        line.append(" ");
        let n = decimal_text(counts[i].1 as u64);
        line.append(n.as_str());
        line.append(" documents");
        r.push(line);
        i = i + 1;
    }
    r
}

/// Whether the ping loop goes on after request number `seq`: always without
/// a count, else until `count` requests were sent.
pub fn ping_continues(seq: usize, count: Option<usize>) -> (r: bool)
    ensures
        r == ping_goes_on(seq, count),
{
    match count {
        Some(c) => seq < c,
        None => true,
    }
}

} // verus!
