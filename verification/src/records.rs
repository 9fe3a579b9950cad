//! The data model: one record per resolved dependency, and an ordered list
//! of records in the resolver's traversal order.

use vstd::prelude::*;

verus! {

/// One resolved dependency: its name, the license identifier when one was
/// determined, and the full license text when one was located. The two
/// optional fields are independent of each other.
pub struct PackageRecord {
    pub name: String,
    pub license_identifier: Option<String>,
    pub license_text: Option<String>,
}

/// Mathematical image of a [`PackageRecord`]: the same three fields as
/// character sequences.
pub ghost struct RecordView {
    pub name: Seq<char>,
    pub license_identifier: Option<Seq<char>>,
    pub license_text: Option<Seq<char>>,
}

impl View for PackageRecord {
    type V = RecordView;

    open spec fn view(&self) -> RecordView {
        RecordView {
            name: self.name@,
            license_identifier: match self.license_identifier {
                Some(ref s) => Some(s@),
                None => None,
            },
            license_text: match self.license_text {
                Some(ref s) => Some(s@),
                None => None,
            },
        }
    }
}

/// Ordered list of resolved dependencies. May be empty; every consumer in
/// this library handles the empty list without division or indexing faults.
pub struct PackageList {
    pub records: Vec<PackageRecord>,
}

impl View for PackageList {
    type V = Seq<RecordView>;

    open spec fn view(&self) -> Seq<RecordView> {
        self.records@.map_values(|r: PackageRecord| r@)
    }
}

/// A record with its license text removed and everything else kept.
pub open spec fn strip_text_record(r: RecordView) -> RecordView {
    RecordView { license_text: None, ..r }
}

/// A list with every record's license text removed, order and the other
/// fields kept.
pub open spec fn stripped(s: Seq<RecordView>) -> Seq<RecordView> {
    s.map_values(|r: RecordView| strip_text_record(r))
}

impl PackageList {
    /// The empty list.
    pub fn new() -> (r: PackageList)
        ensures
            r@ == Seq::<RecordView>::empty(),
    {
        let r = PackageList { records: Vec::new() };
        proof {
            assert(r@ =~= Seq::<RecordView>::empty());
        }
        r
    }

    /// Number of records.
    pub fn len(&self) -> (n: usize)
        ensures
            n == self@.len(),
    {
        self.records.len()
    }

    /// Appends one record.
    pub fn push(&mut self, r: PackageRecord)
        ensures
            final(self)@ == old(self)@.push(r@),
    {
        let ghost before = self@;
        let ghost rv = r@;
        self.records.push(r);
        proof {
            assert(self@ =~= before.push(rv));
        }
    }

    /// Copy of the list with every record's license text removed; used by the
    /// text-omitting output modes.
    pub fn strip_license_texts(&self) -> (r: PackageList)
        ensures
            r@ == stripped(self@),
    {
        let mut out: Vec<PackageRecord> = Vec::new();
        let mut i: usize = 0;
        while i < self.records.len()
            invariant
                i <= self.records.len(),
                out@.map_values(|r: PackageRecord| r@) =~= stripped(self@.take(i as int)),
            decreases self.records.len() - i,
        {
            let rec = &self.records[i];
            let id = match &rec.license_identifier {
                Some(s) => Some(s.clone()),
                None => None,
            };
            let ghost prev = out@.map_values(|r: PackageRecord| r@);
            out.push(PackageRecord {
                name: rec.name.clone(),
                license_identifier: id,
                license_text: None,
            });
            proof {
                let ghost cur = out@.map_values(|r: PackageRecord| r@);
                assert(out@.last()@ == strip_text_record(self@[i as int]));
                assert(cur =~= prev.push(out@.last()@));
                assert(self@.take(i as int + 1) =~= self@.take(i as int).push(self@[i as int]));
                assert(stripped(self@.take(i as int + 1)) =~= stripped(self@.take(i as int)).push(
                    strip_text_record(self@[i as int]),
                ));
                assert(cur =~= stripped(self@.take(i as int + 1)));
            }
            i = i + 1;
        }
        let result = PackageList { records: out };
        proof {
            assert(self@.take(self@.len() as int) =~= self@);
            assert(result@ =~= stripped(self@));
        }
        result
    }
}

} // verus!
