//! Splitting a byte stream into values, one block of bytes at a time.
//!
//! A delimiter byte ends the value before it and is not part of any value.
//! A last value with no delimiter after it is produced when the stream ends,
//! unless it is empty: a stream that ends in the delimiter has no trailing
//! empty value.

use vstd::prelude::*;

verus! {

/// The values completed so far and the bytes of the value still open, after
/// reading `s` from the start.
pub open spec fn split_state(s: Seq<u8>, d: u8) -> (Seq<Seq<u8>>, Seq<u8>)
    decreases s.len(),
{
    if s.len() == 0 {
        (Seq::empty(), Seq::empty())
    } else {
        let prev = split_state(s.drop_last(), d);
        if s.last() == d {
            (prev.0.push(prev.1), Seq::empty())
        } else {
            (prev.0, prev.1.push(s.last()))
        }
    }
}

/// The values of the whole stream `s`.
pub open spec fn split_values(s: Seq<u8>, d: u8) -> Seq<Seq<u8>> {
    let st = split_state(s, d);
    if st.1.len() == 0 {
        st.0
    } else {
        st.0.push(st.1)
    }
}

/// The parts joined, with `sep` between each two of them.
pub open spec fn join_with(parts: Seq<Seq<u8>>, sep: Seq<u8>) -> Seq<u8>
    decreases parts.len(),
{
    if parts.len() == 0 {
        Seq::empty()
    } else if parts.len() == 1 {
        parts[0]
    } else {
        join_with(parts.drop_last(), sep) + sep + parts.last()
    }
}

/// The parts, each followed by `sep`.
pub open spec fn terminated(parts: Seq<Seq<u8>>, sep: Seq<u8>) -> Seq<u8>
    decreases parts.len(),
{
    if parts.len() == 0 {
        Seq::empty()
    } else {
        terminated(parts.drop_last(), sep) + parts.last() + sep
    }
}

proof fn lemma_split_state(s: Seq<u8>, d: u8)
    ensures
        s == terminated(split_state(s, d).0, seq![d]) + split_state(s, d).1,
        !split_state(s, d).1.contains(d),
        forall|i: int|
            0 <= i < split_state(s, d).0.len() ==> !(#[trigger] split_state(s, d).0[i]).contains(d),
    decreases s.len(),
{
    if s.len() > 0 {
        let prev = split_state(s.drop_last(), d);
        lemma_split_state(s.drop_last(), d);
        let st = split_state(s, d);
        if s.last() == d {
            assert(st.0.drop_last() == prev.0);
            assert(s == s.drop_last() + seq![d]);
            assert(st.1 =~= Seq::<u8>::empty());
        } else {
            assert(s == s.drop_last().push(s.last()));
            assert(terminated(prev.0, seq![d]) + prev.1.push(s.last()) == (terminated(
                prev.0,
                seq![d],
            ) + prev.1).push(s.last()));
            if st.1.contains(d) {
                let j = choose|j: int| 0 <= j < st.1.len() && st.1[j] == d;
                assert(j < prev.1.len() ==> prev.1[j] == d);
            }
        }
    }
}

proof fn lemma_join_terminated(parts: Seq<Seq<u8>>, sep: Seq<u8>)
    requires
        parts.len() > 0,
    ensures
        join_with(parts, sep) + sep == terminated(parts, sep),
    decreases parts.len(),
{
    let dl = parts.drop_last();
    if parts.len() > 1 {
        lemma_join_terminated(dl, sep);
        assert(join_with(dl, sep) + sep + parts.last() + sep =~= (join_with(dl, sep) + sep)
            + parts.last() + sep);
    } else {
        assert(terminated(dl, sep) =~= Seq::<u8>::empty());
        assert(terminated(parts, sep) =~= parts[0] + sep);
    }
}

proof fn lemma_join_push(parts: Seq<Seq<u8>>, sep: Seq<u8>, x: Seq<u8>)
    ensures
        join_with(parts.push(x), sep) == terminated(parts, sep) + x,
{
    assert(parts.push(x).drop_last() == parts);
    if parts.len() > 0 {
        lemma_join_terminated(parts, sep);
    } else {
        assert(terminated(parts, sep) + x == x);
    }
}

/// Joining the values of a stream with the delimiter gives the stream back,
/// less the final delimiter where the stream ends with one; no value holds
/// the delimiter, and only a delimiter can end an empty value.
pub proof fn lemma_split_join_round_trip(s: Seq<u8>, d: u8)
    ensures
        s.len() > 0 && s.last() == d ==> join_with(split_values(s, d), seq![d]) + seq![d] == s,
        !(s.len() > 0 && s.last() == d) ==> join_with(split_values(s, d), seq![d]) == s,
        forall|i: int|
            0 <= i < split_values(s, d).len() ==> !(#[trigger] split_values(s, d)[i]).contains(d),
{
    lemma_split_state(s, d);
    let st = split_state(s, d);
    if st.1.len() == 0 {
        assert(s == terminated(st.0, seq![d]));
        if st.0.len() > 0 {
            lemma_join_terminated(st.0, seq![d]);
        }
    } else {
        lemma_join_push(st.0, seq![d], st.1);
        let v = split_values(s, d);
        assert forall|i: int| 0 <= i < v.len() implies !(#[trigger] v[i]).contains(d) by {
            if i < st.0.len() {
                assert(v[i] == st.0[i]);
            }
        }
    }
}

/// The contents of each vector of `v`.
pub open spec fn contents(v: Seq<Vec<u8>>) -> Seq<Seq<u8>> {
    v.map_values(|c: Vec<u8>| c@)
}

/// A splitter that has been fed part of a stream.
pub struct Splitter {
    delimiter: u8,
    pending: Vec<u8>,
    fed: Ghost<Seq<u8>>,
}

impl Splitter {
    /// The delimiter byte.
    pub closed spec fn delimiter(&self) -> u8 {
        self.delimiter
    }

    /// All the bytes fed so far.
    pub closed spec fn fed(&self) -> Seq<u8> {
        self.fed@
    }

    /// The bytes held are those of the value still open.
    pub closed spec fn wf(&self) -> bool {
        self.pending@ == split_state(self.fed@, self.delimiter).1
    }

    /// A splitter on `delimiter` that has been fed nothing.
    pub fn new(delimiter: u8) -> (r: Self)
        ensures
            r.wf(),
            r.delimiter() == delimiter,
            r.fed() == Seq::<u8>::empty(),
    {
        Splitter { delimiter, pending: Vec::new(), fed: Ghost(Seq::empty()) }
    }

    /// Feeds the next block of the stream and returns the values that it
    /// completes, in order.
    pub fn feed(&mut self, bytes: &[u8]) -> (r: Vec<Vec<u8>>)
        requires
            old(self).wf(),
        ensures
            final(self).wf(),
            final(self).delimiter() == old(self).delimiter(),
            final(self).fed() == old(self).fed() + bytes@,
            split_state(final(self).fed(), final(self).delimiter()).0 == split_state(
                old(self).fed(),
                old(self).delimiter(),
            ).0 + contents(r@),
    {
        let mut out: Vec<Vec<u8>> = Vec::new();
        let ghost start = self.fed@;
        let mut i: usize = 0;
        while i < bytes.len()
            invariant
                self.wf(),
                self.delimiter == old(self).delimiter,
                start == old(self).fed@,
                0 <= i <= bytes@.len(),
                self.fed@ == start + bytes@.subrange(0, i as int),
                split_state(self.fed@, self.delimiter).0 == split_state(start, self.delimiter).0
                    + contents(out@),
            decreases bytes@.len() - i,
        {
            let b = bytes[i];
            let ghost before = self.fed@;
            proof {
                assert(start + bytes@.subrange(0, i + 1) == before.push(b));
            }
            self.fed = Ghost(before.push(b));
            assert(self.fed@.drop_last() == before);
            if b == self.delimiter {
                let mut chunk: Vec<u8> = Vec::new();
                std::mem::swap(&mut chunk, &mut self.pending);
                out.push(chunk);
                assert(contents(out@) == contents(out@.drop_last()).push(chunk@));
            } else {
                self.pending.push(b);
            }
            i = i + 1;
        }
        assert(bytes@.subrange(0, bytes@.len() as int) == bytes@);
        out
    }

    /// Ends the stream: returns its last value, if there is one after the
    /// last delimiter.
    pub fn finish(self) -> (r: Option<Vec<u8>>)
        requires
            self.wf(),
        ensures
            split_values(self.fed(), self.delimiter()) == split_state(
                self.fed(),
                self.delimiter(),
            ).0 + match r {
                Some(c) => seq![c@],
                None => Seq::empty(),
            },
    {
        if self.pending.len() == 0 {
            None
        } else {
            Some(self.pending)
        }
    }
}

} // verus!
