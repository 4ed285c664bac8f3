use vstd::prelude::*;

verus! {

/// Why a topic path was refused.
#[derive(Clone, Copy, Debug, PartialEq, Eq, Structural)]
pub enum TopicNameError {
    /// Not of the form `namespace/topic` with path-segment-safe parts.
    Malformed,
    /// The namespace begins with the prefix the broker keeps for itself.
    Reserved,
}

/// Whether a byte may appear in a namespace or topic segment: ASCII
/// letters, digits, and `- _ .`.
pub open spec fn is_segment_byte(b: u8) -> bool {
    (97 <= b <= 122) || (65 <= b <= 90) || (48 <= b <= 57) || b == 45 || b == 95 || b == 46
}

/// Whether a byte sequence is a nonempty, path-segment-safe name.
pub open spec fn spec_segment_ok(s: Seq<u8>) -> bool {
    s.len() > 0 && forall|i: int| 0 <= i < s.len() ==> is_segment_byte(#[trigger] s[i])
}

/// The position of the first `/` at or after `from`, or the length when
/// there is none.
pub open spec fn first_slash(s: Seq<u8>, from: int) -> int
    decreases s.len() - from,
{
    if from < 0 || from >= s.len() {
        s.len() as int
    } else if s[from] == 47 {
        from
    } else {
        first_slash(s, from + 1)
    }
}

/// The namespace and topic a path splits into: an optional leading `/`,
/// then two nonempty, path-segment-safe names joined by one `/`.
pub open spec fn spec_parse_topic(b: Seq<u8>) -> Option<(Seq<u8>, Seq<u8>)> {
    let s = if b.len() > 0 && b[0] == 47 {
        b.drop_first()
    } else {
        b
    };
    let i = first_slash(s, 0);
    if i == s.len() {
        None
    } else {
        let ns = s.subrange(0, i);
        let tp = s.subrange(i + 1, s.len() as int);
        if spec_segment_ok(ns) && spec_segment_ok(tp) {
            Some((ns, tp))
        } else {
            None
        }
    }
}

/// Whether a namespace begins with the prefix the broker keeps for itself.
pub open spec fn spec_reserved(ns: Seq<u8>) -> bool {
    ns.len() >= 6 && ns.subrange(0, 6) == seq![115u8, 101u8, 108u8, 105u8, 117u8, 109u8]
}

/// The model of a topic name: its namespace and topic bytes.
pub struct TopicNameView {
    pub namespace: Seq<u8>,
    pub topic: Seq<u8>,
}

/// A validated `namespace/topic` pair.
#[derive(Clone, Debug)]
pub struct TopicName {
    namespace: Vec<u8>,
    topic: Vec<u8>,
}

impl View for TopicName {
    type V = TopicNameView;

    closed spec fn view(&self) -> TopicNameView {
        TopicNameView { namespace: self.namespace@, topic: self.topic@ }
    }
}

/// Whether `b` is a valid, nonempty, path-segment-safe name.
fn segment_ok(b: &[u8]) -> (r: bool)
    ensures
        r == spec_segment_ok(b@),
{
    let n = b.len();
    if n == 0 {
        return false;
    }
    let mut i: usize = 0;
    while i < n
        invariant
            i <= n,
            n == b@.len(),
            forall|j: int| 0 <= j < i ==> is_segment_byte(#[trigger] b@[j]),
        decreases n - i,
    {
        let c = *vstd::slice::slice_index_get(b, i);
        let ok = (97 <= c && c <= 122) || (65 <= c && c <= 90) || (48 <= c && c <= 57) || c == 45
            || c == 95 || c == 46;
        if !ok {
            return false;
        }
        i = i + 1;
    }
    true
}

impl TopicName {
    /// Validates a topic path and splits it into its namespace and topic,
    /// refusing malformed paths and the broker's reserved namespace prefix.
    pub fn parse(path: &Vec<u8>) -> (r: Result<TopicName, TopicNameError>)
        ensures
            match r {
                Ok(t) => spec_parse_topic(path@) == Some((t@.namespace, t@.topic))
                    && !spec_reserved(t@.namespace),
                Err(TopicNameError::Malformed) => spec_parse_topic(path@) is None,
                Err(TopicNameError::Reserved) => (spec_parse_topic(path@) matches Some((ns, _))
                    && spec_reserved(ns)),
            },
    {
        let n = path.len();
        let start: usize = if n > 0 && path[0] == 47 {
            1
        } else {
            0
        };
        let ghost s = if path@.len() > 0 && path@[0] == 47 {
            path@.drop_first()
        } else {
            path@
        };
        proof {
            assert(s.len() == n - start);
            assert(forall|j: int| 0 <= j < s.len() ==> s[j] == path@[j + start]);
        }
        let mut i: usize = start;
        while i < n && path[i] != 47
            invariant
                start <= i <= n,
                n == path@.len(),
                s.len() == n - start,
                forall|j: int| 0 <= j < s.len() ==> s[j] == path@[j + start],
                first_slash(s, 0) == first_slash(s, i - start),
                forall|j: int| start <= j < i ==> path@[j] != 47,
            decreases n - i,
        {
            i = i + 1;
        }
        if i == n {
            proof {
                assert(first_slash(s, i - start) == s.len());
            }
            return Err(TopicNameError::Malformed);
        }
        proof {
            assert(s[i - start] == 47);
            assert(first_slash(s, i - start) == i - start);
        }
        let ns = crate::frame::copy_range(path.as_slice(), start, i - start);
        let tp = crate::frame::copy_range(path.as_slice(), i + 1, n - i - 1);
        proof {
            assert(ns@ =~= s.subrange(0, i - start));
            assert(tp@ =~= s.subrange(i - start + 1, s.len() as int));
        }
        if !segment_ok(ns.as_slice()) || !segment_ok(tp.as_slice()) {
            return Err(TopicNameError::Malformed);
        }
        let reserved = ns.len() >= 6 && ns[0] == 115 && ns[1] == 101 && ns[2] == 108 && ns[3]
            == 105 && ns[4] == 117 && ns[5] == 109;
        proof {
            if ns@.len() >= 6 {
                assert(spec_reserved(ns@) == (ns@.subrange(0, 6) =~= seq![
                    115u8,
                    101u8,
                    108u8,
                    105u8,
                    117u8,
                    109u8,
                ]));
            }
        }
        if reserved {
            return Err(TopicNameError::Reserved);
        }
        let t = TopicName { namespace: ns, topic: tp };
        Ok(t)
    }

    /// Builds a topic name without the reserved-prefix refusal, for names
    /// the broker makes for itself.
    pub fn create_unchecked(namespace: Vec<u8>, topic: Vec<u8>) -> (r: TopicName)
        requires
            spec_segment_ok(namespace@),
            spec_segment_ok(topic@),
        ensures
            r@.namespace == namespace@,
            r@.topic == topic@,
    {
        TopicName { namespace, topic }
    }

    /// The namespace part.
    pub fn namespace(&self) -> (r: &Vec<u8>)
        ensures
            r@ == self@.namespace,
    {
        &self.namespace
    }

    /// The topic part.
    pub fn topic(&self) -> (r: &Vec<u8>)
        ensures
            r@ == self@.topic,
    {
        &self.topic
    }

    /// The full path, `namespace/topic`.
    pub fn to_path(&self) -> (r: Vec<u8>)
        ensures
            r@ == self@.namespace + seq![47u8] + self@.topic,
    {
        let mut out: Vec<u8> = Vec::new();
        crate::frame::push_slice(&mut out, self.namespace.as_slice());
        out.push(47);
        crate::frame::push_slice(&mut out, self.topic.as_slice());
        assert(out@ =~= self@.namespace + seq![47u8] + self@.topic);
        out
    }
}

} // verus!
