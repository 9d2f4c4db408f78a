use crate::err::{Error, StorageError};
use crate::sql::text::same_text;
use crate::sql::value::{Key, Thing, Val, Value};
use vstd::prelude::*;

verus! {

/// A stored record: its identity and its content.
#[derive(Clone, Debug, PartialEq, Eq)]
pub struct Record {
    pub id: Thing,
    pub value: Value,
}

/// The content of a [`Record`].
pub struct Row {
    pub key: Key,
    pub value: Val,
}

impl View for Record {
    type V = Row;

    open spec fn view(&self) -> Row {
        Row { key: self.id@, value: self.value@ }
    }
}

/// The contents of a list of records.
pub open spec fn rows(s: Seq<Record>) -> Seq<Row> {
    Seq::new(s.len(), |i: int| s[i]@)
}

/// The index of the first row at or after `i` with the key `key`.
pub open spec fn row_from(rs: Seq<Row>, key: Key, i: int) -> Option<int>
    decreases rs.len() - i,
{
    if i < 0 || i >= rs.len() {
        None
    } else if rs[i].key == key {
        Some(i)
    } else {
        row_from(rs, key, i + 1)
    }
}

/// The content stored under `key`, if there is any.
pub open spec fn stored(rs: Seq<Row>, key: Key) -> Option<Val> {
    match row_from(rs, key, 0) {
        Some(i) => Some(rs[i].value),
        None => None,
    }
}

/// The rows of the table `tb`, in the order in which they are stored.
pub open spec fn table_rows(rs: Seq<Row>, tb: Seq<u8>) -> Seq<Row>
    decreases rs.len(),
{
    if rs.len() == 0 {
        rs
    } else {
        let rest = table_rows(rs.drop_last(), tb);
        if rs.last().key.tb == tb {
            rest.push(rs.last())
        } else {
            rest
        }
    }
}

/// The rows with `value` stored under `key`: in the place of what was stored
/// there, or behind all others.
pub open spec fn rows_with(rs: Seq<Row>, key: Key, value: Val) -> Seq<Row> {
    match row_from(rs, key, 0) {
        Some(i) => rs.update(i, Row { key: key, value: value }),
        None => rs.push(Row { key: key, value: value }),
    }
}

/// The rows whose key is not `key`, in their order.
pub open spec fn rows_without(rs: Seq<Row>, key: Key) -> Seq<Row>
    decreases rs.len(),
{
    if rs.len() == 0 {
        rs
    } else {
        let rest = rows_without(rs.drop_last(), key);
        if rs.last().key == key {
            rest
        } else {
            rest.push(rs.last())
        }
    }
}

/// A transaction on the store: the records that it sees, whether it is still
/// open, and whether it may write.
pub struct Transaction {
    pub records: Vec<Record>,
    pub open: bool,
    pub writable: bool,
}

impl Transaction {
    /// The rows that the transaction sees.
    pub open spec fn rows(&self) -> Seq<Row> {
        rows(self.records@)
    }

    /// Why a read is refused, if it is.
    pub open spec fn read_error(&self) -> Option<Error> {
        if self.open {
            None
        } else {
            Some(Error::Storage(StorageError::Finished))
        }
    }

    /// Why a write is refused, if it is.
    pub open spec fn write_error(&self) -> Option<Error> {
        if !self.open {
            Some(Error::Storage(StorageError::Finished))
        } else if !self.writable {
            Some(Error::Storage(StorageError::ReadOnly))
        } else {
            None
        }
    }

    /// An open transaction on an empty store.
    pub fn new(writable: bool) -> (r: Transaction)
        ensures
            r.rows() == Seq::<Row>::empty(),
            r.open,
            r.writable == writable,
    {
        let r = Transaction { records: Vec::new(), open: true, writable };
        assert(r.rows() =~= Seq::<Row>::empty());
        r
    }

    /// Ends the transaction: every later operation is refused.
    pub fn finish(&mut self)
        ensures
            !final(self).open,
            final(self).writable == old(self).writable,
            final(self).rows() == old(self).rows(),
    {
        self.open = false;
    }

    /// The index of the first record with the identity `id`.
    #[verifier::loop_isolation(false)]
    fn position(&self, id: &Thing) -> (r: Option<usize>)
        ensures
            match r {
                Some(i) => row_from(self.rows(), id@, 0) == Some(i as int) && i
                    < self.records.len(),
                None => row_from(self.rows(), id@, 0) is None,
            },
    {
        let ghost rs = self.rows();
        let mut i: usize = 0;
        while i < self.records.len()
            invariant
                i <= self.records.len(),
                row_from(rs, id@, 0) == row_from(rs, id@, i as int),
            decreases self.records.len() - i,
        {
            if self.records[i].id.same(id) {
                return Some(i);
            }
            i += 1;
        }
        None
    }

    /// A copy of the content stored under `id`, if there is any.
    pub fn get(&self, id: &Thing) -> (r: Result<Option<Value>, Error>)
        ensures
            match r {
                Ok(Some(v)) => self.read_error() is None && stored(self.rows(), id@) == Some(v@),
                Ok(None) => self.read_error() is None && stored(self.rows(), id@) is None,
                Err(e) => self.read_error() == Some(e),
            },
    {
        if !self.open {
            return Err(Error::Storage(StorageError::Finished));
        }
        match self.position(id) {
            Some(i) => Ok(Some(self.records[i].value.duplicate())),
            None => Ok(None),
        }
    }

    /// Copies of the records of the table `tb`, in the order in which they
    /// are stored.
    #[verifier::loop_isolation(false)]
    pub fn scan(&self, tb: &Vec<u8>) -> (r: Result<Vec<Record>, Error>)
        ensures
            match r {
                Ok(found) => self.read_error() is None && rows(found@) == table_rows(
                    self.rows(),
                    tb@,
                ),
                Err(e) => self.read_error() == Some(e),
            },
    {
        if !self.open {
            return Err(Error::Storage(StorageError::Finished));
        }
        let ghost rs = self.rows();
        let mut out: Vec<Record> = Vec::new();
        let mut i: usize = 0;
        assert(rs.take(0) =~= Seq::<Row>::empty());
        assert(rows(out@) =~= Seq::<Row>::empty());
        while i < self.records.len()
            invariant
                i <= self.records.len(),
                rows(out@) == table_rows(rs.take(i as int), tb@),
            decreases self.records.len() - i,
        {
            assert(rs.take(i + 1).drop_last() =~= rs.take(i as int));
            if same_text(self.records[i].id.tb.as_slice(), tb.as_slice()) {
                let ghost before = rows(out@);
                out.push(
                    Record {
                        id: self.records[i].id.duplicate(),
                        value: self.records[i].value.duplicate(),
                    },
                );
                assert(rows(out@) =~= before.push(rs[i as int]));
            }
            i += 1;
        }
        assert(rs.take(self.records.len() as int) =~= rs);
        Ok(out)
    }

    /// Stores `value` under `id`. Nothing changes where the write is refused.
    pub fn put(&mut self, id: &Thing, value: Value) -> (r: Result<(), Error>)
        ensures
            final(self).open == old(self).open,
            final(self).writable == old(self).writable,
            match r {
                Ok(_) => old(self).write_error() is None && final(self).rows() == rows_with(
                    old(self).rows(),
                    id@,
                    value@,
                ),
                Err(e) => old(self).write_error() == Some(e) && final(self).rows() == old(
                    self,
                ).rows(),
            },
    {
        if !self.open {
            return Err(Error::Storage(StorageError::Finished));
        }
        if !self.writable {
            return Err(Error::Storage(StorageError::ReadOnly));
        }
        let ghost before = self.rows();
        let ghost row = Row { key: id@, value: value@ };
        match self.position(id) {
            Some(i) => {
                self.records.set(i, Record { id: id.duplicate(), value });
                assert(self.rows() =~= before.update(i as int, row));
            },
            None => {
                self.records.push(Record { id: id.duplicate(), value });
                assert(self.rows() =~= before.push(row));
            },
        }
        Ok(())
    }

    /// Removes what is stored under `id`. Nothing changes where the write is
    /// refused.
    #[verifier::loop_isolation(false)]
    pub fn delete(&mut self, id: &Thing) -> (r: Result<(), Error>)
        ensures
            final(self).open == old(self).open,
            final(self).writable == old(self).writable,
            match r {
                Ok(_) => old(self).write_error() is None && final(self).rows() == rows_without(
                    old(self).rows(),
                    id@,
                ),
                Err(e) => old(self).write_error() == Some(e) && final(self).rows() == old(
                    self,
                ).rows(),
            },
    {
        if !self.open {
            return Err(Error::Storage(StorageError::Finished));
        }
        if !self.writable {
            return Err(Error::Storage(StorageError::ReadOnly));
        }
        let ghost rs = self.rows();
        let mut out: Vec<Record> = Vec::new();
        let mut i: usize = 0;
        assert(rs.take(0) =~= Seq::<Row>::empty());
        assert(rows(out@) =~= Seq::<Row>::empty());
        while i < self.records.len()
            invariant
                i <= self.records.len(),
                self.rows() == rs,
                rows(out@) == rows_without(rs.take(i as int), id@),
            decreases self.records.len() - i,
        {
            assert(rs.take(i + 1).drop_last() =~= rs.take(i as int));
            if !self.records[i].id.same(id) {
                let ghost before = rows(out@);
                out.push(
                    Record {
                        id: self.records[i].id.duplicate(),
                        value: self.records[i].value.duplicate(),
                    },
                );
                assert(rows(out@) =~= before.push(rs[i as int]));
            }
            i += 1;
        }
        assert(rs.take(self.records.len() as int) =~= rs);
        self.records = out;
        Ok(())
    }
}

} // verus!
