use vstd::prelude::*;

verus! {

broadcast use vstd::std_specs::vec::group_vec_axioms;

/// A typed literal: a whole number, a piece of text, or the "count"
/// sentinel standing for the number of matched items.
#[derive(Debug, PartialEq, Clone)]
pub enum Literal {
    Integer(u64),
    Str(String),
    Count,
}

/// The mathematical value of a `Literal`.
#[verifier::ext_equal]
pub enum ValueV {
    Integer(int),
    Str(Seq<char>),
    Count,
}

pub open spec fn value_view(v: Literal) -> ValueV {
    match v {
        Literal::Integer(n) => ValueV::Integer(n as int),
        Literal::Str(s) => ValueV::Str(s@),
        Literal::Count => ValueV::Count,
    }
}

/// An integer that fits the document format's signed 64-bit scalar.
pub open spec fn value_wf(v: ValueV) -> bool {
    match v {
        ValueV::Integer(n) => 0 <= n <= i64::MAX,
        _ => true,
    }
}

/// A comparison operator of the action mini-language.
#[derive(Debug, PartialEq, Eq, Structural, Clone, Copy)]
pub enum Operator {
    EqualTo,
    NotEqualTo,
    LessThan,
    LessThanEqualTo,
    GreaterThan,
    GreaterThanEqualTo,
}

/// A single-value predicate: equality or negation over one literal.
#[derive(Debug, PartialEq, Clone)]
pub enum WrappedValue {
    EqualTo(Literal),
    NotEqualTo(Literal),
}

#[verifier::ext_equal]
pub enum WrappedValueV {
    EqualTo(ValueV),
    NotEqualTo(ValueV),
}

pub open spec fn wrapped_view(w: WrappedValue) -> WrappedValueV {
    match w {
        WrappedValue::EqualTo(v) => WrappedValueV::EqualTo(value_view(v)),
        WrappedValue::NotEqualTo(v) => WrappedValueV::NotEqualTo(value_view(v)),
    }
}

/// A clause predicate compares against a literal: a number or text,
/// never the count sentinel.
pub open spec fn wrapped_wf(w: WrappedValueV) -> bool {
    match w {
        WrappedValueV::EqualTo(v) => value_wf(v) && !(v is Count),
        WrappedValueV::NotEqualTo(v) => value_wf(v) && !(v is Count),
    }
}

pub open spec fn is_digit(c: char) -> bool {
    '0' <= c && c <= '9'
}

pub open spec fn digit_of(c: char) -> int {
    c as u32 - 48
}

/// Running left-to-right digit accumulation, refusing non-digits and
/// values past the signed 64-bit bound.
pub open spec fn parse_int_rec(s: Seq<char>, i: int, acc: u64) -> Option<u64>
    decreases s.len() - i,
{
    if i < 0 || i >= s.len() {
        Some(acc)
    } else if !is_digit(s[i]) {
        None
    } else {
        let a2 = acc * 10 + digit_of(s[i]);
        if a2 > i64::MAX {
            None
        } else {
            parse_int_rec(s, i + 1, a2 as u64)
        }
    }
}

/// A run of digits read as a whole number, when it is one and fits.
pub open spec fn spec_parse_int(s: Seq<char>) -> Option<u64> {
    if s.len() == 0 {
        None
    } else {
        parse_int_rec(s, 0, 0)
    }
}

/// Digits of `s` as a whole number, or nothing when `s` is not all
/// digits or does not fit the signed 64-bit bound.
#[verifier::loop_isolation(false)]
pub fn parse_int_text(s: &str) -> (r: Option<u64>)
    ensures
        r == spec_parse_int(s@),
{
    let n = s.unicode_len();
    if n == 0 {
        return None;
    }
    let mut acc: u64 = 0;
    let mut i: usize = 0;
    while i < n
        invariant
            n == s@.len(),
            0 <= i <= n,
            spec_parse_int(s@) == parse_int_rec(s@, i as int, acc),
        decreases n - i,
    {
        let c = s.get_char(i);
        if c < '0' || c > '9' {
            return None;
        }
        let d: u64 = (c as u32 - 48) as u64;
        let wide: u128 = acc as u128 * 10 + d as u128;
        if wide > i64::MAX as u128 {
            return None;
        }
        acc = wide as u64;
        i += 1;
    }
    Some(acc)
}

/// Accumulated digit values never pass the signed 64-bit bound.
pub proof fn lemma_parse_int_bound(s: Seq<char>, i: int, acc: u64)
    requires
        acc <= i64::MAX,
    ensures
        parse_int_rec(s, i, acc) matches Some(v) ==> v <= i64::MAX,
    decreases s.len() - i,
{
    if 0 <= i < s.len() && is_digit(s[i]) {
        let a2 = acc * 10 + digit_of(s[i]);
        if a2 <= i64::MAX {
            lemma_parse_int_bound(s, i + 1, a2 as u64);
        }
    }
}

/// A bare literal: a number when the text is all digits, else the text.
pub open spec fn spec_parse_literal(s: Seq<char>) -> ValueV {
    match spec_parse_int(s) {
        Some(n) => ValueV::Integer(n as int),
        None => ValueV::Str(s),
    }
}

pub fn parse_literal_text(s: &str) -> (r: Literal)
    ensures
        value_view(r) == spec_parse_literal(s@),
{
    match parse_int_text(s) {
        Some(n) => Literal::Integer(n),
        None => Literal::Str(s.to_owned()),
    }
}

pub open spec fn is_ws(c: char) -> bool {
    c == ' ' || c == '\t'
}

pub open spec fn trim_start_idx(s: Seq<char>, i: int) -> int
    decreases s.len() - i,
{
    if i < 0 || i >= s.len() {
        s.len() as int
    } else if is_ws(s[i]) {
        trim_start_idx(s, i + 1)
    } else {
        i
    }
}

pub open spec fn trim_end_idx(s: Seq<char>, j: int) -> int
    decreases j,
{
    if j <= 0 || j > s.len() {
        0
    } else if is_ws(s[j - 1]) {
        trim_end_idx(s, j - 1)
    } else {
        j
    }
}

/// The text without leading and trailing spaces and tabs.
pub open spec fn spec_trim(s: Seq<char>) -> Seq<char> {
    let a = trim_start_idx(s, 0);
    let b = trim_end_idx(s, s.len() as int);
    if a >= b {
        Seq::empty()
    } else {
        s.subrange(a, b)
    }
}

proof fn lemma_trim_start_bounds(s: Seq<char>, i: int)
    requires
        0 <= i <= s.len(),
    ensures
        i <= trim_start_idx(s, i) <= s.len(),
    decreases s.len() - i,
{
    if i < s.len() && is_ws(s[i]) {
        lemma_trim_start_bounds(s, i + 1);
    }
}

proof fn lemma_trim_end_bounds(s: Seq<char>, j: int)
    requires
        0 <= j <= s.len(),
    ensures
        0 <= trim_end_idx(s, j) <= j,
    decreases j,
{
    if j > 0 && is_ws(s[j - 1]) {
        lemma_trim_end_bounds(s, j - 1);
    }
}

/// `s` without leading and trailing spaces and tabs.
pub fn trim_text<'a>(s: &'a str) -> (r: &'a str)
    ensures
        r@ == spec_trim(s@),
{
    let n = s.unicode_len();
    let mut a: usize = 0;
    while a < n
        invariant
            n == s@.len(),
            0 <= a <= n,
            trim_start_idx(s@, 0) == trim_start_idx(s@, a as int),
        ensures
            0 <= a <= n,
            a as int == trim_start_idx(s@, 0),
        decreases n - a,
    {
        let c = s.get_char(a);
        if c != ' ' && c != '\t' {
            break;
        }
        a += 1;
    }
    let mut b: usize = n;
    while b > 0
        invariant
            n == s@.len(),
            0 <= b <= n,
            trim_end_idx(s@, n as int) == trim_end_idx(s@, b as int),
        ensures
            0 <= b <= n,
            b as int == trim_end_idx(s@, n as int),
        decreases b,
    {
        let c = s.get_char(b - 1);
        if c != ' ' && c != '\t' {
            break;
        }
        b -= 1;
    }
    if a >= b {
        let r = s.substring_char(0, 0);
        proof {
            assert(r@ =~= spec_trim(s@));
        }
        r
    } else {
        s.substring_char(a, b)
    }
}

/// Negation shorthand: a leading `!` negates the trimmed remainder,
/// anything else is an equality over the whole trimmed literal.
pub open spec fn spec_parse_wrapped(s: Seq<char>) -> WrappedValueV {
    let t = spec_trim(s);
    if t.len() > 0 && t[0] == '!' {
        WrappedValueV::NotEqualTo(spec_parse_literal(spec_trim(t.subrange(1, t.len() as int))))
    } else {
        WrappedValueV::EqualTo(spec_parse_literal(t))
    }
}

pub fn parse_wrapped_text(s: &str) -> (r: WrappedValue)
    ensures
        wrapped_view(r) == spec_parse_wrapped(s@),
{
    let t = trim_text(s);
    let n = t.unicode_len();
    if n > 0 && t.get_char(0) == '!' {
        let rest = t.substring_char(1, n);
        proof {
            assert(rest@ =~= t@.subrange(1, t@.len() as int));
        }
        let inner = trim_text(rest);
        WrappedValue::NotEqualTo(parse_literal_text(inner))
    } else {
        WrappedValue::EqualTo(parse_literal_text(t))
    }
}

/// A parse that never happens: the shorthand grammar accepts any text.
#[derive(Debug, PartialEq)]
pub struct NoParseFail;

impl core::str::FromStr for WrappedValue {
    type Err = NoParseFail;

    fn from_str(s: &str) -> Result<WrappedValue, NoParseFail> {
        Ok(parse_wrapped_text(s))
    }
}


/// Strict lexicographic order on keys, by character code.
pub open spec fn key_lt(a: Seq<char>, b: Seq<char>) -> bool
    decreases a.len(),
{
    if b.len() == 0 {
        false
    } else if a.len() == 0 {
        true
    } else if a[0] != b[0] {
        (a[0] as u32) < (b[0] as u32)
    } else {
        key_lt(a.drop_first(), b.drop_first())
    }
}

pub proof fn lemma_key_lt_irrefl(a: Seq<char>)
    ensures
        !key_lt(a, a),
    decreases a.len(),
{
    if a.len() > 0 {
        lemma_key_lt_irrefl(a.drop_first());
    }
}

pub proof fn lemma_key_lt_connex(a: Seq<char>, b: Seq<char>)
    ensures
        !key_lt(a, b) && !key_lt(b, a) ==> a == b,
    decreases a.len(),
{
    if a.len() == 0 && b.len() == 0 {
        assert(a =~= b);
    } else if a.len() > 0 && b.len() > 0 && a[0] != b[0] {
        if (a[0] as u32) == (b[0] as u32) {
            vstd::utf8::char_u32_cast(a[0], a[0] as u32);
            vstd::utf8::char_u32_cast(b[0], b[0] as u32);
            assert(a[0] == b[0]);
        }
    } else if a.len() > 0 && b.len() > 0 && a[0] == b[0] {
        lemma_key_lt_connex(a.drop_first(), b.drop_first());
        if !key_lt(a, b) && !key_lt(b, a) {
            assert(key_lt(a, b) == key_lt(a.drop_first(), b.drop_first()));
            assert(key_lt(b, a) == key_lt(b.drop_first(), a.drop_first()));
            assert(a.drop_first() == b.drop_first());
            assert(a.len() == b.len());
            assert forall|j: int| 0 <= j < a.len() implies a[j] == b[j] by {
                if j > 0 {
                    assert(a.drop_first()[j - 1] == b.drop_first()[j - 1]);
                }
            }
            assert(a =~= b);
        }
    }
}

pub proof fn lemma_key_lt_trans(a: Seq<char>, b: Seq<char>, c: Seq<char>)
    requires
        key_lt(a, b),
        key_lt(b, c),
    ensures
        key_lt(a, c),
    decreases a.len(),
{
    if a.len() > 0 && b.len() > 0 && c.len() > 0 && a[0] == b[0] && b[0] == c[0] {
        lemma_key_lt_trans(a.drop_first(), b.drop_first(), c.drop_first());
    }
}

/// Character-by-character order test, proved against the views.
#[verifier::loop_isolation(false)]
pub fn str_lt(a: &str, b: &str) -> (r: bool)
    ensures
        r == key_lt(a@, b@),
{
    let na = a.unicode_len();
    let nb = b.unicode_len();
    proof {
        assert(a@.skip(0) =~= a@);
        assert(b@.skip(0) =~= b@);
    }
    let mut i: usize = 0;
    while i < na && i < nb
        invariant
            na == a@.len(),
            nb == b@.len(),
            0 <= i <= na,
            0 <= i <= nb,
            key_lt(a@, b@) == key_lt(a@.skip(i as int), b@.skip(i as int)),
        decreases na - i,
    {
        let ca = a.get_char(i);
        let cb = b.get_char(i);
        proof {
            assert(a@.skip(i as int)[0] == a@[i as int]);
            assert(b@.skip(i as int)[0] == b@[i as int]);
            assert(a@.skip(i as int).drop_first() =~= a@.skip(i as int + 1));
            assert(b@.skip(i as int).drop_first() =~= b@.skip(i as int + 1));
        }
        if ca != cb {
            return (ca as u32) < (cb as u32);
        }
        i += 1;
    }
    proof {
        if i >= na {
            assert(a@.skip(i as int).len() == 0);
        } else {
            assert(b@.skip(i as int).len() == 0);
        }
    }
    i >= na && i < nb
}

/// A named-field predicate mapping: field name to single-value
/// predicate, entries kept sorted by key, keys unique.
#[derive(Debug, PartialEq, Clone)]
pub struct Clause {
    entries: Vec<(String, WrappedValue)>,
}

pub open spec fn clause_entry_views(s: Seq<(String, WrappedValue)>) -> Seq<
    (Seq<char>, WrappedValueV),
> {
    Seq::new(
        s.len(),
        |i: int|
            if 0 <= i < s.len() {
                (s[i].0@, wrapped_view(s[i].1))
            } else {
                (Seq::<char>::empty(), WrappedValueV::EqualTo(ValueV::Count))
            },
    )
}

pub closed spec fn clause_view(c: Clause) -> Seq<(Seq<char>, WrappedValueV)> {
    clause_entry_views(c.entries@)
}

/// Keys are pairwise distinct.
pub open spec fn clause_keys_unique(cv: Seq<(Seq<char>, WrappedValueV)>) -> bool {
    forall|i: int, j: int| 0 <= i < j < cv.len() ==> cv[i].0 != cv[j].0
}

/// Keys stand in strictly ascending order: the one canonical order
/// of a clause, whatever order a document listed its fields in.
pub open spec fn clause_sorted(cv: Seq<(Seq<char>, WrappedValueV)>) -> bool {
    forall|i: int, j: int| 0 <= i < j < cv.len() ==> key_lt(#[trigger] cv[i].0, #[trigger] cv[j].0)
}

pub open spec fn clause_wf(cv: Seq<(Seq<char>, WrappedValueV)>) -> bool {
    &&& clause_sorted(cv)
    &&& clause_keys_unique(cv)
    &&& forall|i: int| 0 <= i < cv.len() ==> wrapped_wf(#[trigger] cv[i].1)
}

/// The clause with the pair put at its key's place in the order:
/// replacing in place when the key is already there, else inserted
/// between the smaller and the larger keys.
pub open spec fn clause_insert(
    cv: Seq<(Seq<char>, WrappedValueV)>,
    key: Seq<char>,
    w: WrappedValueV,
) -> Seq<(Seq<char>, WrappedValueV)>
    decreases cv.len(),
{
    if cv.len() == 0 {
        seq![(key, w)]
    } else if key_lt(cv[0].0, key) {
        seq![cv[0]] + clause_insert(cv.drop_first(), key, w)
    } else if cv[0].0 == key {
        seq![(key, w)] + cv.drop_first()
    } else {
        seq![(key, w)] + cv
    }
}

/// When every present key is smaller, the insert is an append.
pub proof fn lemma_clause_insert_append(
    cv: Seq<(Seq<char>, WrappedValueV)>,
    key: Seq<char>,
    w: WrappedValueV,
)
    requires
        forall|j: int| 0 <= j < cv.len() ==> key_lt(#[trigger] cv[j].0, key),
    ensures
        clause_insert(cv, key, w) == cv.push((key, w)),
    decreases cv.len(),
{
    if cv.len() == 0 {
        assert(clause_insert(cv, key, w) =~= cv.push((key, w)));
    } else {
        assert forall|j: int| 0 <= j < cv.drop_first().len() implies key_lt(
            #[trigger] cv.drop_first()[j].0,
            key,
        ) by {
            assert(cv.drop_first()[j] == cv[j + 1]);
        }
        lemma_clause_insert_append(cv.drop_first(), key, w);
        assert(seq![cv[0]] + cv.drop_first().push((key, w)) =~= cv.push((key, w)));
    }
}

/// Whether some entry of `cv` has key `key`.
pub open spec fn clause_has_key(cv: Seq<(Seq<char>, WrappedValueV)>, key: Seq<char>) -> bool {
    exists|i: int| 0 <= i < cv.len() && cv[i].0 == key
}

impl Clause {
    /// An empty clause.
    pub fn new() -> (r: Clause)
        ensures
            clause_view(r) =~= Seq::<(Seq<char>, WrappedValueV)>::empty(),
    {
        Clause { entries: Vec::new() }
    }

    pub fn len(&self) -> (r: usize)
        ensures
            r == clause_view(*self).len(),
    {
        self.entries.len()
    }

    pub fn key_at(&self, i: usize) -> (r: &String)
        requires
            i < clause_view(*self).len(),
        ensures
            r@ == clause_view(*self)[i as int].0,
    {
        &self.entries[i].0
    }

    pub fn value_at(&self, i: usize) -> (r: &WrappedValue)
        requires
            i < clause_view(*self).len(),
        ensures
            wrapped_view(*r) == clause_view(*self)[i as int].1,
    {
        &self.entries[i].1
    }

    #[verifier::loop_isolation(false)]
    pub fn contains_key(&self, key: &str) -> (r: bool)
        ensures
            r == clause_has_key(clause_view(*self), key@),
    {
        let mut i: usize = 0;
        while i < self.entries.len()
            invariant
                0 <= i <= self.entries@.len(),
                forall|j: int| 0 <= j < i ==> clause_view(*self)[j].0 != key@,
            decreases self.entries@.len() - i,
        {
            if crate::node::str_eq(self.entries[i].0.as_str(), key) {
                proof {
                    assert(clause_view(*self)[i as int].0 == key@);
                }
                return true;
            }
            i += 1;
        }
        false
    }

    /// Puts the pair at its key's place in the sorted order,
    /// replacing that key's predicate when the key is already there.
    #[verifier::loop_isolation(false)]
    #[verifier::rlimit(100)]
    pub fn insert(&mut self, key: String, value: WrappedValue)
        ensures
            clause_view(*final(self)) == clause_insert(
                clause_view(*old(self)),
                key@,
                wrapped_view(value),
            ),
            clause_wf(clause_view(*old(self))) && wrapped_wf(wrapped_view(value)) ==> clause_wf(
                clause_view(*final(self)),
            ),
    {
        let ghost oldv = clause_view(*old(self));
        let ghost w = wrapped_view(value);
        let mut pos: usize = 0;
        let mut scanning = true;
        proof {
            assert(oldv.skip(0) =~= oldv);
        }
        while scanning && pos < self.entries.len()
            invariant
                *self == *old(self),
                0 <= pos <= self.entries@.len(),
                forall|j: int| 0 <= j < pos ==> key_lt(#[trigger] clause_view(*self)[j].0, key@),
                clause_insert(oldv, key@, w) == oldv.subrange(0, pos as int) + clause_insert(
                    oldv.skip(pos as int),
                    key@,
                    w,
                ),
                !scanning ==> pos < self.entries@.len() && !key_lt(oldv[pos as int].0, key@),
            decreases self.entries@.len() - pos + (if scanning {
                1int
            } else {
                0int
            }),
        {
            if str_lt(self.entries[pos].0.as_str(), key.as_str()) {
                proof {
                    assert(oldv.skip(pos as int)[0] == oldv[pos as int]);
                    assert(oldv.skip(pos as int).drop_first() =~= oldv.skip(pos as int + 1));
                    assert(oldv.subrange(0, pos as int) + (seq![oldv[pos as int]] + clause_insert(
                        oldv.skip(pos as int + 1),
                        key@,
                        w,
                    )) =~= oldv.subrange(0, pos as int + 1) + clause_insert(
                        oldv.skip(pos as int + 1),
                        key@,
                        w,
                    ));
                }
                pos += 1;
            } else {
                scanning = false;
            }
        }
        proof {
            assert forall|j: int| 0 <= j < pos implies oldv[j].0 != key@ by {
                if oldv[j].0 == key@ {
                    lemma_key_lt_irrefl(key@);
                }
            }
        }
        if scanning {
            proof {
                assert(pos == oldv.len());
                assert(oldv.skip(pos as int).len() == 0);
                assert(oldv.subrange(0, pos as int) =~= oldv);
                assert(oldv + seq![(key@, w)] =~= oldv.push((key@, w)));
            }
            self.entries.push((key, value));
            proof {
                assert(clause_view(*self) =~= oldv.push((key@, w)));
                if clause_wf(oldv) && wrapped_wf(w) {
                    assert forall|i: int, j: int|
                        0 <= i < j < clause_view(*self).len() implies key_lt(
                        #[trigger] clause_view(*self)[i].0,
                        #[trigger] clause_view(*self)[j].0,
                    ) by {
                        if j < pos {
                            assert(clause_view(*self)[i] == oldv[i]);
                            assert(clause_view(*self)[j] == oldv[j]);
                        } else {
                            assert(clause_view(*self)[i] == oldv[i]);
                            assert(key_lt(oldv[i].0, key@));
                        }
                    }
                    assert(clause_wf(clause_view(*self)));
                }
            }
            return ;
        }
        let ghost head = oldv[pos as int];
        proof {
            assert(oldv.skip(pos as int)[0] == head);
            assert(oldv.skip(pos as int).drop_first() =~= oldv.skip(pos as int + 1));
        }
        if crate::node::str_eq(self.entries[pos].0.as_str(), key.as_str()) {
            self.entries.remove(pos);
            self.entries.insert(pos, (key, value));
            proof {
                assert(oldv.subrange(0, pos as int) + (seq![(key@, w)] + oldv.skip(pos as int + 1))
                    =~= oldv.update(pos as int, (key@, w)));
                assert(clause_view(*self) =~= oldv.update(pos as int, (key@, w)));
                if clause_wf(oldv) && wrapped_wf(w) {
                    assert forall|j: int|
                        0 <= j < clause_view(*self).len() implies #[trigger] clause_view(
                        *self,
                    )[j].0 == oldv[j].0 by {}
                    assert(clause_wf(clause_view(*self)));
                }
            }
        } else {
            proof {
                lemma_key_lt_connex(head.0, key@);
                assert(key_lt(key@, head.0));
                assert(oldv.subrange(0, pos as int) + (seq![(key@, w)] + oldv.skip(pos as int))
                    =~= oldv.insert(pos as int, (key@, w)));
            }
            self.entries.insert(pos, (key, value));
            proof {
                assert(clause_view(*self) =~= oldv.insert(pos as int, (key@, w)));
                if clause_wf(oldv) && wrapped_wf(w) {
                    let newv = clause_view(*self);
                    assert forall|i: int, j: int| 0 <= i < j < newv.len() implies key_lt(
                        #[trigger] newv[i].0,
                        #[trigger] newv[j].0,
                    ) by {
                        if j < pos {
                            assert(newv[i] == oldv[i]);
                            assert(newv[j] == oldv[j]);
                        } else if j == pos {
                            assert(newv[i] == oldv[i]);
                            assert(key_lt(oldv[i].0, key@));
                        } else {
                            assert(newv[j] == oldv[j - 1]);
                            if i < pos {
                                assert(newv[i] == oldv[i]);
                                assert(key_lt(oldv[i].0, oldv[j - 1].0));
                            } else if i == pos {
                                if j - 1 == pos {
                                    assert(newv[j] == head);
                                } else {
                                    assert(key_lt(head.0, oldv[j - 1].0));
                                    lemma_key_lt_trans(key@, head.0, oldv[j - 1].0);
                                }
                            } else {
                                assert(newv[i] == oldv[i - 1]);
                                assert(key_lt(oldv[i - 1].0, oldv[j - 1].0));
                            }
                        }
                    }
                    assert forall|i: int, j: int| 0 <= i < j < newv.len() implies newv[i].0
                        != newv[j].0 by {
                        if newv[i].0 == newv[j].0 {
                            assert(key_lt(newv[i].0, newv[j].0));
                            lemma_key_lt_irrefl(newv[i].0);
                        }
                    }
                    assert(clause_wf(newv));
                }
            }
        }
    }
}

/// Index of the first clause entry whose key is `key`, or -1.
pub open spec fn ckey_index(cv: Seq<(Seq<char>, WrappedValueV)>, key: Seq<char>) -> int
    decreases cv.len(),
{
    if cv.len() == 0 {
        -1
    } else if cv[0].0 == key {
        0
    } else {
        let r = ckey_index(cv.drop_first(), key);
        if r < 0 {
            -1
        } else {
            1 + r
        }
    }
}

pub proof fn lemma_ckey_index(cv: Seq<(Seq<char>, WrappedValueV)>, key: Seq<char>)
    ensures
        ckey_index(cv, key) >= 0 ==> {
            &&& ckey_index(cv, key) < cv.len()
            &&& cv[ckey_index(cv, key)].0 == key
            &&& forall|j: int| 0 <= j < ckey_index(cv, key) ==> cv[j].0 != key
        },
        ckey_index(cv, key) < 0 ==> forall|j: int| 0 <= j < cv.len() ==> cv[j].0 != key,
    decreases cv.len(),
{
    if cv.len() > 0 && cv[0].0 != key {
        lemma_ckey_index(cv.drop_first(), key);
        assert forall|j: int| 1 <= j < cv.len() implies cv.drop_first()[j - 1] == cv[j] by {}
    }
}

/// A clause plus a cap on how many filter-matching items may be used.
#[derive(Debug, PartialEq, Clone)]
pub struct Limiter {
    pub filter: Clause,
    pub at_most: u64,
}

#[verifier::ext_equal]
pub struct LimiterV {
    pub filter: Seq<(Seq<char>, WrappedValueV)>,
    pub at_most: u64,
}

pub open spec fn limiter_view(l: Limiter) -> LimiterV {
    LimiterV { filter: clause_view(l.filter), at_most: l.at_most }
}

pub open spec fn limiter_wf(l: LimiterV) -> bool {
    &&& clause_wf(l.filter)
    &&& l.at_most <= i64::MAX
}

} // verus!
