use vstd::prelude::*;

verus! {

/// One calendar event as the store holds it.
pub struct Event {
    pub id: i64,
    pub title: String,
    pub description: Option<String>,
    pub start_time: String,
    pub end_time: String,
}

/// The store operation that an error came from.
#[derive(PartialEq, Eq, Structural, Clone, Copy, Debug)]
pub enum Operation {
    Init,
    Create,
    GetRange,
    Delete,
}

/// Why a store operation did not complete.
#[derive(PartialEq, Eq, Structural, Clone, Copy, Debug)]
pub enum StoreError {
    /// The input was malformed (an empty title).
    Validation,
    /// The storage layer failed while running the named operation.
    Storage { op: Operation },
}

/// Text order of two timestamps: `a` sorts at or before `b`, comparing
/// characters one by one from the left, a prefix sorting first.
pub open spec fn text_le(a: Seq<char>, b: Seq<char>) -> bool
    decreases a.len(),
{
    if a.len() == 0 {
        true
    } else if b.len() == 0 {
        false
    } else if (a[0] as u32) != (b[0] as u32) {
        (a[0] as u32) < (b[0] as u32)
    } else {
        text_le(a.drop_first(), b.drop_first())
    }
}

/// The event starts inside the closed window `[lo, hi]`.
pub open spec fn in_range(e: Event, lo: Seq<char>, hi: Seq<char>) -> bool {
    text_le(lo, e.start_time@) && text_le(e.start_time@, hi)
}

/// Every event starts no later than each event after it.
pub open spec fn sorted_by_start(s: Seq<Event>) -> bool {
    forall|i: int, j: int|
        0 <= i < j < s.len() ==> #[trigger] text_le(s[i].start_time@, s[j].start_time@)
}

/// Every text sorts at or before itself.
pub proof fn lemma_text_le_refl(a: Seq<char>)
    ensures
        text_le(a, a),
    decreases a.len(),
{
    if a.len() > 0 {
        lemma_text_le_refl(a.drop_first());
    }
}

/// Of two texts, one sorts at or before the other.
pub proof fn lemma_text_le_total(a: Seq<char>, b: Seq<char>)
    ensures
        text_le(a, b) || text_le(b, a),
    decreases a.len(),
{
    if a.len() > 0 && b.len() > 0 && (a[0] as u32) == (b[0] as u32) {
        lemma_text_le_total(a.drop_first(), b.drop_first());
    }
}

/// Text order is transitive.
pub proof fn lemma_text_le_trans(a: Seq<char>, b: Seq<char>, c: Seq<char>)
    requires
        text_le(a, b),
        text_le(b, c),
    ensures
        text_le(a, c),
    decreases a.len(),
{
    if a.len() > 0 && b.len() > 0 && c.len() > 0 && (a[0] as u32) == (b[0] as u32) && (b[0] as u32) == (c[0] as u32) {
        lemma_text_le_trans(a.drop_first(), b.drop_first(), c.drop_first());
    }
}

/// Two texts that each sort at or before the other are equal.
pub proof fn lemma_text_le_antisym(a: Seq<char>, b: Seq<char>)
    requires
        text_le(a, b),
        text_le(b, a),
    ensures
        a == b,
    decreases a.len(),
{
    if a.len() > 0 && b.len() > 0 {
        lemma_text_le_antisym(a.drop_first(), b.drop_first());
        vstd::utf8::char_u32_cast(a[0], a[0] as u32);
        vstd::utf8::char_u32_cast(b[0], b[0] as u32);
        assert(a =~= seq![a[0]] + a.drop_first());
        assert(b =~= seq![b[0]] + b.drop_first());
    } else {
        assert(a =~= b);
    }
}

/// Past a common prefix, two texts compare as their remainders do.
proof fn lemma_text_le_suffix(a: Seq<char>, b: Seq<char>, i: int)
    requires
        0 <= i <= a.len(),
        i <= b.len(),
        a.subrange(0, i) == b.subrange(0, i),
    ensures
        text_le(a, b) == text_le(a.subrange(i, a.len() as int), b.subrange(i, b.len() as int)),
    decreases i,
{
    if i > 0 {
        assert(a[0] == a.subrange(0, i)[0]);
        assert(b[0] == b.subrange(0, i)[0]);
        assert(a.drop_first().subrange(0, i - 1) =~= a.subrange(0, i).drop_first());
        assert(b.drop_first().subrange(0, i - 1) =~= b.subrange(0, i).drop_first());
        lemma_text_le_suffix(a.drop_first(), b.drop_first(), i - 1);
        assert(a.drop_first().subrange(i - 1, a.len() - 1) =~= a.subrange(i, a.len() as int));
        assert(b.drop_first().subrange(i - 1, b.len() - 1) =~= b.subrange(i, b.len() as int));
    } else {
        assert(a.subrange(0, a.len() as int) =~= a);
        assert(b.subrange(0, b.len() as int) =~= b);
    }
}

/// Compares two timestamps in text order.
pub fn timestamp_le(a: &str, b: &str) -> (r: bool)
    ensures
        r == text_le(a@, b@),
{
    let la = a.unicode_len();
    let lb = b.unicode_len();
    let mut i: usize = 0;
    while i < la && i < lb
        invariant
            la == a@.len(),
            lb == b@.len(),
            i <= la,
            i <= lb,
            a@.subrange(0, i as int) == b@.subrange(0, i as int),
        decreases la - i,
    {
        let ca = a.get_char(i);
        let cb = b.get_char(i);
        if (ca as u32) != (cb as u32) {
            proof {
                lemma_text_le_suffix(a@, b@, i as int);
                let sa = a@.subrange(i as int, la as int);
                let sb = b@.subrange(i as int, lb as int);
                assert(sa[0] == ca);
                assert(sb[0] == cb);
            }
            return (ca as u32) < (cb as u32);
        }
        proof {
            vstd::utf8::char_u32_cast(ca, ca as u32);
            vstd::utf8::char_u32_cast(cb, cb as u32);
        }
        assert(a@.subrange(0, i + 1) =~= a@.subrange(0, i as int).push(ca));
        assert(b@.subrange(0, i + 1) =~= b@.subrange(0, i as int).push(cb));
        i = i + 1;
    }
    proof {
        if i < la {
            lemma_text_le_suffix(a@, b@, i as int);
            assert(b@.subrange(i as int, lb as int).len() == 0);
        } else if i < lb {
            lemma_text_le_suffix(a@, b@, i as int);
        } else {
            assert(a@ =~= a@.subrange(0, i as int));
            assert(b@ =~= b@.subrange(0, i as int));
            lemma_text_le_refl(a@);
        }
    }
    i >= la
}

/// Checks the title of a new event: it must not be empty.
pub fn validate_title(title: &str) -> (r: Result<(), StoreError>)
    ensures
        r == (if title@.len() == 0 {
            Err::<(), StoreError>(StoreError::Validation)
        } else {
            Ok(())
        }),
{
    if title.unicode_len() == 0 {
        Err(StoreError::Validation)
    } else {
        Ok(())
    }
}

/// Copies an event, field by field.
pub fn copy_event(e: &Event) -> (r: Event)
    ensures
        r == *e,
{
    let description = match &e.description {
        Some(d) => Some(d.clone()),
        None => None,
    };
    Event {
        id: e.id,
        title: e.title.clone(),
        description,
        start_time: e.start_time.clone(),
        end_time: e.end_time.clone(),
    }
}

} // verus!
