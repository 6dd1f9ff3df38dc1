use vstd::prelude::*;

verus! {

/// The sequence recorded last under `name`, if any.
pub open spec fn lookup(recs: Seq<(String, String)>, name: Seq<char>) -> Option<String>
    decreases recs.len(),
{
    if recs.len() == 0 {
        None
    } else if recs.last().0@ == name {
        Some(recs.last().1)
    } else {
        lookup(recs.drop_last(), name)
    }
}

/// A reference proteome: `(transcript id, sequence)` records in file order; a
/// later record with the same id hides an earlier one.
#[derive(Debug, Clone)]
pub struct FastaFile {
    pub fastarecords: Vec<(String, String)>,
}

impl FastaFile {
    pub fn new(fastarecords: Vec<(String, String)>) -> (r: Self)
        ensures r.fastarecords == fastarecords,
    {
        FastaFile { fastarecords }
    }

    /// The sequence of a transcript, or an error when the id is not recorded.
    pub fn get_record(&self, seq_name: &String) -> (r: Result<&String, String>)
        ensures
            r is Ok <==> lookup(self.fastarecords@, seq_name@) is Some,
            r is Ok ==> *r->Ok_0 == lookup(self.fastarecords@, seq_name@)->0,
    {
        let mut i: usize = self.fastarecords.len();
        assert(self.fastarecords@.take(i as int) =~= self.fastarecords@);
        while i > 0
            invariant
                i <= self.fastarecords@.len(),
                lookup(self.fastarecords@, seq_name@) == lookup(self.fastarecords@.take(i as int), seq_name@),
            decreases i,
        {
            let ghost pre = self.fastarecords@.take(i as int);
            assert(pre.drop_last() =~= self.fastarecords@.take(i as int - 1));
            if self.fastarecords[i - 1].0 == *seq_name {
                return Ok(&self.fastarecords[i - 1].1);
            }
            i = i - 1;
        }
        Err("the sequence is not in the reference".to_owned())
    }

    pub fn get_records(&self) -> (r: &Vec<(String, String)>)
        ensures r == &self.fastarecords,
    {
        &self.fastarecords
    }

    pub fn is_in_records(&self, seq_name: &String) -> (r: bool)
        ensures r == lookup(self.fastarecords@, seq_name@) is Some,
    {
        self.get_record(seq_name).is_ok()
    }

    pub fn consume_and_get_hash_map(self) -> (r: Vec<(String, String)>)
        ensures r == self.fastarecords,
    {
        self.fastarecords
    }
}

} // verus!
