use vstd::prelude::*;

verus! {

/// A table of the document store, named by a short tag.
pub trait Table {
    fn table_name() -> (r: &'static str);
}

/// Identifier of a record in table `T`: the bare id, without the table tag.
#[derive(Debug, PartialEq, Eq, Hash)]
pub struct SurrealId<T: Table>(pub String, pub core::marker::PhantomData<T>);

/// The text form of a record id: table tag, a colon, then the bare id.
pub open spec fn record_text(table: Seq<char>, id: Seq<char>) -> Seq<char> {
    table + seq![':'] + id
}

/// `i` is the position of the first colon of `s`.
pub open spec fn first_colon(s: Seq<char>, i: int) -> bool {
    &&& 0 <= i < s.len()
    &&& s[i] == ':'
    &&& forall|j: int| 0 <= j < i ==> s[j] != ':'
}

/// The bare id in the text form `s` of a record of table `table`: what
/// follows the first colon, provided that what precedes it is the table tag.
pub open spec fn record_id_of(table: Seq<char>, s: Seq<char>) -> Option<Seq<char>> {
    if exists|i: int| first_colon(s, i) {
        let i = choose|i: int| first_colon(s, i);
        if s.subrange(0, i) == table {
            Some(s.subrange(i + 1, s.len() as int))
        } else {
            None
        }
    } else {
        None
    }
}

/// Reads the bare id out of the text form of a record id of table `table`.
pub fn parse_record_id(table: &str, s: &str) -> (r: Option<String>)
    ensures
        match r {
            Some(id) => record_id_of(table@, s@) == Some(id@),
            None => record_id_of(table@, s@) is None,
        },
{
    let n = s.unicode_len();
    let mut i: usize = 0;
    while i < n
        invariant
            0 <= i <= n,
            n == s@.len(),
            forall|j: int| 0 <= j < i ==> s@[j] != ':',
        decreases n - i,
    {
        if s.get_char(i) == ':' {
            proof {
                let k = choose|k: int| first_colon(s@, k);
                assert(first_colon(s@, i as int));
                if k < i {
                    assert(s@[k] != ':');
                } else if k > i {
                    assert(s@[i as int] != ':');
                }
            }
            let prefix = s.substring_char(0, i).to_owned();
            if prefix == table.to_owned() {
                return Some(s.substring_char(i + 1, n).to_owned());
            } else {
                return None;
            }
        }
        i = i + 1;
    }
    None
}

impl<T: Table> SurrealId<T> {
    pub fn new(id: String) -> (r: Self)
        ensures
            r.0@ == id@,
    {
        SurrealId(id, core::marker::PhantomData)
    }

    pub fn id(&self) -> (r: &str)
        ensures
            r@ == self.0@,
    {
        self.0.as_str()
    }

    /// Reads a record id of table `T` from its text form, `table:id`.
    pub fn from_record_str(s: &str) -> (r: Option<Self>)
        ensures
            r matches Some(x) ==> exists|t: &'static str| record_id_of(t@, s@) == Some(x.0@),
    {
        match parse_record_id(T::table_name(), s) {
            Some(id) => Some(SurrealId(id, core::marker::PhantomData)),
            None => None,
        }
    }

    /// The record id in its text form, `table:id`.
    pub fn to_record_string(&self) -> (r: String)
        ensures
            exists|t: &'static str| r@ == record_text(t@, self.0@),
    {
        let table = T::table_name();
        let mut s = table.to_owned();
        s.append(":");
        s.append(self.0.as_str());
        proof { reveal_strlit(":"); }
        assert(s@ == record_text(table@, self.0@));
        s
    }
}

} // verus!
