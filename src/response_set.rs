//! A set of documented responses, keyed by status code, in the order in
//! which the codes were added.
use vstd::prelude::*;
use crate::model::{
    agrees, has_status, lemma_renamed_unique, merged, renamed, retyped,
    retyped_entry, statuses_unique, with_body, with_status, without_status, Body, MediaType,
    ResolveError, ResponseEntry, SchemaRef,
};

verus! {

/// The responses documented for one response type. No status code occurs
/// twice; the first entry is the primary (success) response.
pub struct ResponseSet {
    entries: Vec<ResponseEntry>,
}

impl View for ResponseSet {
    type V = Seq<ResponseEntry>;

    closed spec fn view(&self) -> Seq<ResponseEntry> {
        self.entries@
    }
}

/// The view of a resolution outcome.
pub open spec fn outcome(r: Result<ResponseSet, ResolveError>) -> Result<Seq<ResponseEntry>, ResolveError> {
    match r {
        Ok(s) => Ok(s@),
        Err(e) => Err(e),
    }
}

/// Once merging a prefix of `b` fails, merging all of `b` fails alike.
proof fn lemma_merged_error_persists(a: Seq<ResponseEntry>, b: Seq<ResponseEntry>, k: int)
    requires
        0 <= k <= b.len(),
        merged(a, b.take(k)) is Err,
    ensures
        merged(a, b) == merged(a, b.take(k)),
    decreases b.len() - k,
{
    if k == b.len() {
        assert(b.take(k) =~= b);
    } else {
        assert(b.take(k + 1).drop_last() =~= b.take(k));
        lemma_merged_error_persists(a, b, k + 1);
    }
}

impl ResponseSet {
    /// The empty set.
    pub fn new() -> (r: ResponseSet)
        ensures
            r@ == Seq::<ResponseEntry>::empty(),
    {
        ResponseSet { entries: Vec::new() }
    }

    /// The number of status codes documented.
    pub fn len(&self) -> (r: usize)
        ensures
            r == self@.len(),
    {
        self.entries.len()
    }

    /// The entries, primary first.
    pub fn entries(&self) -> (r: &Vec<ResponseEntry>)
        ensures
            r@ == self@,
    {
        &self.entries
    }

    /// The position of the entry with status `code`, if there is one.
    pub fn position(&self, code: u16) -> (r: Option<usize>)
        ensures
            r matches Some(i) ==> i < self@.len() && self@[i as int].status == code,
            r is None <==> !has_status(self@, code),
    {
        let mut i: usize = 0;
        while i < self.entries.len()
            invariant
                i <= self.entries@.len(),
                forall|k: int| 0 <= k < i ==> self.entries@[k].status != code,
            decreases self.entries@.len() - i,
        {
            if self.entries[i].status == code {
                return Some(i);
            }
            i = i + 1;
        }
        None
    }

    /// The entry with status `code`, if there is one.
    pub fn get(&self, code: u16) -> (r: Option<ResponseEntry>)
        requires
            statuses_unique(self@),
        ensures
            r is None <==> !has_status(self@, code),
            r matches Some(e) ==> e.status == code && agrees(self@, e),
    {
        match self.position(code) {
            Some(i) => Some(self.entries[i]),
            None => None,
        }
    }

    /// Ensures that an entry with status `code` exists, adding an empty one
    /// where there is none. An existing entry is left as it is.
    pub fn ensure_status_code_exists(&mut self, code: u16)
        requires
            statuses_unique(old(self)@),
        ensures
            final(self)@ == with_status(old(self)@, code),
            statuses_unique(final(self)@),
    {
        if self.position(code).is_none() {
            self.entries.push(ResponseEntry { status: code, body: None });
        }
    }

    /// Documents `body` under status `code`. An entry with no body takes it;
    /// an entry with another body is a conflict, and the set is unchanged.
    pub fn add_content_response(&mut self, code: u16, body: Body) -> (r: Result<(), ResolveError>)
        requires
            statuses_unique(old(self)@),
        ensures
            statuses_unique(final(self)@),
            r is Ok <==> (forall|i: int|
                0 <= i < old(self)@.len() && old(self)@[i].status == code
                    ==> old(self)@[i].body is None || old(self)@[i].body == Some(body)),
            r is Ok ==> final(self)@ == with_body(old(self)@, code, body),
            r is Err ==> r == Err::<(), ResolveError>(ResolveError::ResponseMergeConflict { status: code })
                && final(self)@ == old(self)@,
    {
        let e = ResponseEntry { status: code, body: Some(body) };
        match self.position(code) {
            None => {
                self.entries.push(e);
                proof {
                    assert(self@ == with_body(old(self)@, code, body));
                }
                Ok(())
            },
            Some(i) => {
                let cur = self.entries[i];
                if cur.body.is_none() {
                    self.entries.set(i, e);
                    proof {
                        assert(old(self)@.update(i as int, e) =~= with_body(old(self)@, code, body));
                    }
                    Ok(())
                } else if cur.body == Some(body) {
                    proof {
                        assert(old(self)@ =~= with_body(old(self)@, code, body));
                    }
                    Ok(())
                } else {
                    Err(ResolveError::ResponseMergeConflict { status: code })
                }
            },
        }
    }

    /// Documents a payload described by `schema`, of type `media`, under
    /// status `code`.
    pub fn add_schema_response(&mut self, code: u16, media: MediaType, schema: SchemaRef) -> (r: Result<(), ResolveError>)
        requires
            statuses_unique(old(self)@),
        ensures
            statuses_unique(final(self)@),
            ({
                let body = Body { media_type: media, schema: Some(schema) };
                &&& r is Ok <==> (forall|i: int|
                    0 <= i < old(self)@.len() && old(self)@[i].status == code
                        ==> old(self)@[i].body is None || old(self)@[i].body == Some(body))
                &&& r is Ok ==> final(self)@ == with_body(old(self)@, code, body)
                &&& r is Err ==> r == Err::<(), ResolveError>(ResolveError::ResponseMergeConflict { status: code })
                    && final(self)@ == old(self)@
            }),
    {
        self.add_content_response(code, Body { media_type: media, schema: Some(schema) })
    }

    /// Moves the primary entry to status `code`, keeping its body; another
    /// entry that had `code` is dropped, and the rest stay in order. Fails,
    /// leaving the set unchanged, on an empty set.
    pub fn set_status_code(&mut self, code: u16) -> (r: Result<(), ResolveError>)
        requires
            statuses_unique(old(self)@),
        ensures
            statuses_unique(final(self)@),
            match renamed(old(self)@, code) {
                Ok(s) => r is Ok && final(self)@ == s,
                Err(e) => r == Err::<(), ResolveError>(e) && final(self)@ == old(self)@,
            },
    {
        if self.entries.len() == 0 {
            return Err(ResolveError::StatusRewriteFailure { status: code });
        }
        let ghost s0 = self@;
        let first = self.entries[0];
        let head = ResponseEntry { status: code, body: first.body };
        let mut out: Vec<ResponseEntry> = Vec::new();
        out.push(head);
        proof {
            assert(out@ =~= seq![head] + without_status(s0.subrange(1, 1), code));
        }
        let mut i: usize = 1;
        while i < self.entries.len()
            invariant
                1 <= i <= self.entries@.len(),
                self@ == s0,
                out@ == seq![head] + without_status(s0.subrange(1, i as int), code),
            decreases self.entries@.len() - i,
        {
            let e = self.entries[i];
            proof {
                assert(s0.subrange(1, i + 1).drop_last() =~= s0.subrange(1, i as int));
                assert(s0.subrange(1, i + 1).last() == e);
            }
            if e.status != code {
                out.push(e);
                proof {
                    assert(out@ =~= seq![head] + without_status(s0.subrange(1, i + 1), code));
                }
            } else {
                proof {
                    assert(out@ =~= seq![head] + without_status(s0.subrange(1, i + 1), code));
                }
            }
            i = i + 1;
        }
        proof {
            assert(s0.subrange(1, s0.len() as int) =~= s0.drop_first());
            lemma_renamed_unique(s0, code);
        }
        self.entries = out;
        Ok(())
    }

    /// Forces the content type of every entry to `media`, keeping schemas.
    /// An entry without a body gets one of that type with no schema.
    pub fn set_content_type(&mut self, media: MediaType)
        requires
            statuses_unique(old(self)@),
        ensures
            final(self)@ == retyped(old(self)@, media),
            statuses_unique(final(self)@),
    {
        let mut i: usize = 0;
        while i < self.entries.len()
            invariant
                i <= self.entries@.len(),
                self.entries@.len() == old(self)@.len(),
                forall|k: int| 0 <= k < i ==> self.entries@[k] == retyped_entry(old(self)@[k], media),
                forall|k: int| i <= k < self.entries@.len() ==> self.entries@[k] == old(self)@[k],
            decreases self.entries@.len() - i,
        {
            let e = self.entries[i];
            let schema = match e.body {
                Some(b) => b.schema,
                None => None,
            };
            self.entries.set(i, ResponseEntry { status: e.status, body: Some(Body { media_type: media, schema }) });
            i = i + 1;
        }
        proof {
            assert(self@ =~= retyped(old(self)@, media));
        }
    }

    /// Merges `other` into `self`: every status code of either is kept, the
    /// codes of `self` first. A code present in both must carry the same
    /// description in both; the first of `other` that does not is a conflict.
    pub fn produce_any_responses(self, other: ResponseSet) -> (r: Result<ResponseSet, ResolveError>)
        requires
            statuses_unique(self@),
            statuses_unique(other@),
        ensures
            outcome(r) == merged(self@, other@),
            r matches Ok(s) ==> statuses_unique(s@),
    {
        let mut acc = self;
        let mut j: usize = 0;
        while j < other.entries.len()
            invariant
                j <= other@.len(),
                statuses_unique(acc@),
                merged(self@, other@.take(j as int)) == Ok::<Seq<ResponseEntry>, ResolveError>(acc@),
            decreases other@.len() - j,
        {
            let e = other.entries[j];
            proof {
                assert(other@.take(j + 1).drop_last() =~= other@.take(j as int));
                assert(other@.take(j + 1).last() == e);
            }
            match acc.position(e.status) {
                None => {
                    acc.entries.push(e);
                },
                Some(i) => {
                    if acc.entries[i] != e {
                        proof {
                            assert(!agrees(acc@, e));
                            lemma_merged_error_persists(self@, other@, j + 1);
                        }
                        return Err(ResolveError::ResponseMergeConflict { status: e.status });
                    }
                    proof {
                        assert(agrees(acc@, e));
                    }
                },
            }
            j = j + 1;
        }
        proof {
            assert(other@.take(j as int) =~= other@);
        }
        Ok(acc)
    }
}

} // verus!
