//! The metrics recorder: monotonic request counters keyed by
//! (country, client version), and their OpenMetrics text exposition.

use vstd::prelude::*;

verus! {

/// The label pair that identifies one counter of the `proxy_requests` family.
#[derive(Debug)]
pub struct ProxyRequestLabels {
    pub country: String,
    pub ambient_version: String,
}

impl View for ProxyRequestLabels {
    type V = (Seq<char>, Seq<char>);

    open spec fn view(&self) -> Self::V {
        (self.country@, self.ambient_version@)
    }
}

impl Clone for ProxyRequestLabels {
    fn clone(&self) -> (r: Self)
        ensures
            r == *self,
    {
        ProxyRequestLabels {
            country: self.country.clone(),
            ambient_version: self.ambient_version.clone(),
        }
    }
}

/// One abstract counter: a label pair and its count.
pub type CounterEntry = ((Seq<char>, Seq<char>), u64);

/// No two entries carry the same label pair.
pub open spec fn keys_distinct(m: Seq<CounterEntry>) -> bool {
    forall|i: int, j: int| 0 <= i < j < m.len() ==> m[i].0 != m[j].0
}

pub open spec fn has_key(m: Seq<CounterEntry>, key: (Seq<char>, Seq<char>)) -> bool {
    exists|i: int| 0 <= i < m.len() && m[i].0 == key
}

pub open spec fn key_index(m: Seq<CounterEntry>, key: (Seq<char>, Seq<char>)) -> int {
    choose|i: int| 0 <= i < m.len() && m[i].0 == key
}

/// One increment of a counter value; the count pins at `u64::MAX` rather
/// than wrap, so it never decreases.
pub open spec fn bump(c: u64) -> u64 {
    if c == u64::MAX {
        c
    } else {
        (c + 1) as u64
    }
}

/// The registry after one request with the given label pair: the matching
/// counter incremented, or a fresh counter at 1 on first use of the pair.
pub open spec fn inc_spec(m: Seq<CounterEntry>, key: (Seq<char>, Seq<char>)) -> Seq<CounterEntry> {
    if has_key(m, key) {
        m.update(key_index(m, key), (key, bump(m[key_index(m, key)].1)))
    } else {
        m.push((key, 1u64))
    }
}

/// The count the registry holds for a label pair; 0 before its first use.
pub open spec fn count_of(m: Seq<CounterEntry>, key: (Seq<char>, Seq<char>)) -> u64 {
    if has_key(m, key) {
        m[key_index(m, key)].1
    } else {
        0u64
    }
}

/// The sum of all counters of the family, over every label pair.
pub open spec fn total_of(m: Seq<CounterEntry>) -> int
    decreases m.len(),
{
    if m.len() == 0 {
        0
    } else {
        total_of(m.drop_last()) + m.last().1
    }
}

/// The decimal digit characters of a count, most significant first.
pub open spec fn dec_spec(n: nat) -> Seq<char>
    decreases n,
{
    if n < 10 {
        seq![digit_char(n)]
    } else {
        dec_spec(n / 10).push(digit_char(n % 10))
    }
}

pub open spec fn digit_char(d: nat) -> char {
    if d == 0 {
        '0'
    } else if d == 1 {
        '1'
    } else if d == 2 {
        '2'
    } else if d == 3 {
        '3'
    } else if d == 4 {
        '4'
    } else if d == 5 {
        '5'
    } else if d == 6 {
        '6'
    } else if d == 7 {
        '7'
    } else if d == 8 {
        '8'
    } else {
        '9'
    }
}

/// How one character of a label value is written in the exposition text:
/// backslash, double quote and newline get a backslash escape.
pub open spec fn escape_char(c: char) -> Seq<char> {
    if c == '\\' {
        seq!['\\', '\\']
    } else if c == '"' {
        seq!['\\', '"']
    } else if c == '\n' {
        seq!['\\', 'n']
    } else {
        seq![c]
    }
}

/// A label value as written between double quotes in the exposition text.
pub open spec fn escape_spec(s: Seq<char>) -> Seq<char>
    decreases s.len(),
{
    if s.len() == 0 {
        Seq::<char>::empty()
    } else {
        escape_spec(s.drop_last()) + escape_char(s.last())
    }
}

/// The exposition line of one counter: name, label set and count.
pub open spec fn sample_line(key: (Seq<char>, Seq<char>), count: u64) -> Seq<char> {
    "proxy_requests_total{country=\""@ + escape_spec(key.0) + "\",ambient_version=\""@
        + escape_spec(key.1) + "\"} "@ + dec_spec(count as nat) + "\n"@
}

pub open spec fn lines_spec(m: Seq<CounterEntry>) -> Seq<char>
    decreases m.len(),
{
    if m.len() == 0 {
        Seq::<char>::empty()
    } else {
        lines_spec(m.drop_last()) + sample_line(m.last().0, m.last().1)
    }
}

/// The whole exposition text: the family's HELP and TYPE lines, one sample
/// line per counter in creation order, and the EOF marker.
pub open spec fn render_spec(m: Seq<CounterEntry>) -> Seq<char> {
    "# HELP proxy_requests Count of /proxy requests.\n# TYPE proxy_requests counter\n"@
        + lines_spec(m) + "# EOF\n"@
}

/// Appends the decimal digits of `n`.
fn append_dec(out: &mut String, n: u64)
    ensures
        final(out)@ == old(out)@ + dec_spec(n as nat),
    decreases n,
{
    if n >= 10 {
        append_dec(out, n / 10);
    }
    let d = n % 10;
    match d {
        0 => out.append("0"),
        1 => out.append("1"),
        2 => out.append("2"),
        3 => out.append("3"),
        4 => out.append("4"),
        5 => out.append("5"),
        6 => out.append("6"),
        7 => out.append("7"),
        8 => out.append("8"),
        _ => out.append("9"),
    }
    proof {
        reveal_strlit("0");
        reveal_strlit("1");
        reveal_strlit("2");
        reveal_strlit("3");
        reveal_strlit("4");
        reveal_strlit("5");
        reveal_strlit("6");
        reveal_strlit("7");
        reveal_strlit("8");
        reveal_strlit("9");
        if n < 10 {
            assert(dec_spec(n as nat) =~= seq![digit_char(n as nat)]);
        } else {
            assert(dec_spec(n as nat) =~= dec_spec((n / 10) as nat).push(digit_char((n % 10) as nat)));
        }
        assert(out@ =~= old(out)@ + dec_spec(n as nat));
    }
}

/// Appends a label value with backslash, quote and newline escaped.
fn append_escaped(out: &mut String, s: &str)
    ensures
        final(out)@ == old(out)@ + escape_spec(s@),
{
    let n = s.unicode_len();
    let mut i: usize = 0;
    while i < n
        invariant
            0 <= i <= n,
            n == s@.len(),
            out@ == old(out)@ + escape_spec(s@.take(i as int)),
        decreases n - i,
    {
        let c = s.get_char(i);
        if c == '\\' {
            out.append("\\\\");
            proof {
                reveal_strlit("\\\\");
                assert("\\\\"@ =~= escape_char(c));
            }
        } else if c == '"' {
            out.append("\\\"");
            proof {
                reveal_strlit("\\\"");
                assert("\\\""@ =~= escape_char(c));
            }
        } else if c == '\n' {
            out.append("\\n");
            proof {
                reveal_strlit("\\n");
                assert("\\n"@ =~= escape_char(c));
            }
        } else {
            out.append(s.substring_char(i, i + 1));
            proof {
                assert(s@.subrange(i as int, i as int + 1) =~= escape_char(c));
            }
        }
        proof {
            assert(s@.take(i as int + 1).drop_last() =~= s@.take(i as int));
            assert(escape_spec(s@.take(i as int + 1)) == escape_spec(s@.take(i as int)) + escape_char(c));
            assert(out@ =~= old(out)@ + escape_spec(s@.take(i as int + 1)));
        }
        i = i + 1;
    }
    proof {
        assert(s@.take(n as int) =~= s@);
    }
}

/// The `proxy_requests` counter family. Counters are created on first use,
/// only ever incremented, and never removed or reset.
#[derive(Debug)]
pub struct Metrics {
    entries: Vec<(ProxyRequestLabels, u64)>,
}

impl View for Metrics {
    type V = Seq<CounterEntry>;

    closed spec fn view(&self) -> Self::V {
        Seq::new(self.entries@.len(), |i: int| (self.entries@[i].0@, self.entries@[i].1))
    }
}

impl Metrics {
    pub open spec fn wf(&self) -> bool {
        keys_distinct(self@)
    }

    /// A fresh registry with the `proxy_requests` family and no counters yet.
    pub fn new_registery() -> (m: Self)
        ensures
            m@ == Seq::<CounterEntry>::empty(),
            m.wf(),
    {
        let m = Metrics { entries: Vec::new() };
        proof {
            assert(m@ =~= Seq::<CounterEntry>::empty());
        }
        m
    }

    /// Increments the counter for the given (country, version) pair,
    /// creating it at 1 on first use.
    pub fn inc_proxy_requests(&mut self, country: String, ambient_version: String)
        requires
            old(self).wf(),
        ensures
            final(self).wf(),
            final(self)@ == inc_spec(old(self)@, (country@, ambient_version@)),
    {
        let ghost key = (country@, ambient_version@);
        let mut i: usize = 0;
        while i < self.entries.len()
            invariant
                0 <= i <= self.entries.len(),
                *self == *old(self),
                old(self).wf(),
                key == (country@, ambient_version@),
                forall|k: int| 0 <= k < i ==> self@[k].0 != key,
            decreases self.entries.len() - i,
        {
            let c_eq = self.entries[i].0.country == country;
            let v_eq = self.entries[i].0.ambient_version == ambient_version;
            proof {
                assert(self@[i as int].0.0 == self.entries@[i as int].0.country@);
                assert(self@[i as int].0.1 == self.entries@[i as int].0.ambient_version@);
                if c_eq && v_eq {
                    assert(self@[i as int].0.0 == key.0 && self@[i as int].0.1 == key.1);
                    assert(self@[i as int].0 == key);
                } else {
                    assert(!(self@[i as int].0.0 == key.0 && self@[i as int].0.1 == key.1));
                    assert(self@[i as int].0 != key);
                }
            }
            if c_eq && v_eq {
                proof {
                    assert(has_key(old(self)@, key));
                    let w = key_index(old(self)@, key);
                    assert(old(self)@[w].0 == key);
                    assert(w == i as int) by {
                        if w < i as int {
                            assert(old(self)@[w].0 != old(self)@[i as int].0);
                        }
                        if (i as int) < w {
                            assert(old(self)@[i as int].0 != old(self)@[w].0);
                        }
                    }
                }
                let c = self.entries[i].1;
                let labels = self.entries[i].0.clone();
                let next = if c == u64::MAX {
                    c
                } else {
                    c + 1
                };
                self.entries.set(i, (labels, next));
                proof {
                    assert(self@ =~= inc_spec(old(self)@, key));
                    assert(forall|a: int| 0 <= a < self@.len() ==> self@[a].0 == old(self)@[a].0);
                }
                return;
            }
            i = i + 1;
        }
        proof {
            assert(!has_key(self@, key));
        }
        self.entries.push((ProxyRequestLabels { country, ambient_version }, 1));
        proof {
            assert(self@ =~= old(self)@.push((key, 1u64)));
        }
    }

    /// Serializes the registry in the OpenMetrics exposition text format:
    /// the family header, one sample line per counter in creation order,
    /// and the EOF marker. Total: rendering cannot fail.
    pub fn render(&self) -> (out: String)
        ensures
            out@ == render_spec(self@),
    {
        let mut out = String::new();
        out.append("# HELP proxy_requests Count of /proxy requests.\n# TYPE proxy_requests counter\n");
        let n = self.entries.len();
        let mut i: usize = 0;
        while i < n
            invariant
                0 <= i <= n,
                n == self.entries@.len(),
                n == self@.len(),
                out@ == "# HELP proxy_requests Count of /proxy requests.\n# TYPE proxy_requests counter\n"@
                    + lines_spec(self@.take(i as int)),
            decreases n - i,
        {
            let ghost before = out@;
            out.append("proxy_requests_total{country=\"");
            append_escaped(&mut out, self.entries[i].0.country.as_str());
            out.append("\",ambient_version=\"");
            append_escaped(&mut out, self.entries[i].0.ambient_version.as_str());
            out.append("\"} ");
            append_dec(&mut out, self.entries[i].1);
            out.append("\n");
            proof {
                assert(out@ =~= before + sample_line(self@[i as int].0, self@[i as int].1));
                assert(self@.take(i as int + 1).drop_last() =~= self@.take(i as int));
                assert(lines_spec(self@.take(i as int + 1))
                    == lines_spec(self@.take(i as int)) + sample_line(self@[i as int].0, self@[i as int].1));
                assert(out@ =~= "# HELP proxy_requests Count of /proxy requests.\n# TYPE proxy_requests counter\n"@
                    + lines_spec(self@.take(i as int + 1)));
            }
            i = i + 1;
        }
        out.append("# EOF\n");
        proof {
            assert(self@.take(n as int) =~= self@);
            assert(out@ =~= render_spec(self@));
        }
        out
    }
}

proof fn lemma_total_update(m: Seq<CounterEntry>, w: int, e: CounterEntry)
    requires
        0 <= w < m.len(),
    ensures
        total_of(m.update(w, e)) == total_of(m) - m[w].1 + e.1,
    decreases m.len(),
{
    let m2 = m.update(w, e);
    if w == m.len() - 1 {
        assert(m2.drop_last() =~= m.drop_last());
        assert(m2.last() == e);
    } else {
        assert(m2.drop_last() =~= m.drop_last().update(w, e));
        lemma_total_update(m.drop_last(), w, e);
        assert(m2.last() == m.last());
    }
}

/// Law: a request with a label pair raises that pair's counter by one and
/// leaves every other pair's counter unchanged (below the counter's cap).
pub proof fn lemma_inc_count(m: Seq<CounterEntry>, key: (Seq<char>, Seq<char>))
    requires
        keys_distinct(m),
        count_of(m, key) < u64::MAX,
    ensures
        keys_distinct(inc_spec(m, key)),
        count_of(inc_spec(m, key), key) == count_of(m, key) + 1,
        forall|other: (Seq<char>, Seq<char>)|
            other != key ==> count_of(inc_spec(m, key), other) == count_of(m, other),
{
    let m2 = inc_spec(m, key);
    if has_key(m, key) {
        let w = key_index(m, key);
        assert(m[w].0 == key);
        assert(forall|a: int| 0 <= a < m2.len() ==> m2[a].0 == m[a].0);
        assert forall|other: (Seq<char>, Seq<char>)| has_key(m2, other) == has_key(m, other) by {
            if has_key(m2, other) {
                let x = choose|x: int| 0 <= x < m2.len() && m2[x].0 == other;
                assert(m[x].0 == other);
            }
            if has_key(m, other) {
                let x = choose|x: int| 0 <= x < m.len() && m[x].0 == other;
                assert(m2[x].0 == other);
            }
        }
        assert forall|other: (Seq<char>, Seq<char>)| has_key(m, other) implies {
            &&& 0 <= key_index(m2, other) < m.len()
            &&& key_index(m2, other) == key_index(m, other)
        } by {
            let x2 = key_index(m2, other);
            let x1 = key_index(m, other);
            assert(m2[x2].0 == other);
            assert(m[x1].0 == other);
            assert(m[x2].0 == other);
            if x1 < x2 {
                assert(m[x1].0 != m[x2].0);
            }
            if x2 < x1 {
                assert(m[x2].0 != m[x1].0);
            }
        }
        assert(key_index(m2, key) == w);
        assert(count_of(m2, key) == bump(m[w].1));
        assert forall|other: (Seq<char>, Seq<char>)|
            other != key implies count_of(m2, other) == count_of(m, other) by {
            if has_key(m, other) {
                let x = key_index(m, other);
                assert(m[x].0 == other);
                assert(x != w);
                assert(m2[x] == m[x]);
            }
        }
    } else {
        let len = m.len() as int;
        assert(m2 == m.push((key, 1u64)));
        assert(m2[len].0 == key);
        assert(forall|a: int| 0 <= a < len ==> m2[a] == m[a]);
        assert(keys_distinct(m2)) by {
            assert forall|i: int, j: int| 0 <= i < j < m2.len() implies m2[i].0 != m2[j].0 by {
                if j < len {
                    assert(m[i].0 != m[j].0);
                } else {
                    assert(!(0 <= i < m.len() && m[i].0 == key));
                }
            }
        }
        assert(has_key(m2, key));
        assert(key_index(m2, key) == len) by {
            let x = key_index(m2, key);
            assert(m2[x].0 == key);
            if x < len {
                assert(m[x].0 == key);
                assert(has_key(m, key));
            }
        }
        assert(count_of(m2, key) == 1);
        assert forall|other: (Seq<char>, Seq<char>)|
            other != key implies count_of(m2, other) == count_of(m, other) by {
            if has_key(m, other) {
                let x = key_index(m, other);
                assert(m[x].0 == other);
                assert(m2[x].0 == other);
                assert(has_key(m2, other));
                let x2 = key_index(m2, other);
                assert(m2[x2].0 == other);
                assert(x2 != len);
                if x < x2 {
                    assert(m2[x].0 != m2[x2].0);
                }
                if x2 < x {
                    assert(m2[x2].0 != m2[x].0);
                }
                assert(m2[x2] == m[x]);
            } else {
                if has_key(m2, other) {
                    let x2 = choose|x2: int| 0 <= x2 < m2.len() && m2[x2].0 == other;
                    assert(x2 == len);
                }
                assert(!has_key(m2, other));
            }
        }
    }
}

/// Law: a request adds exactly one to the sum of the family's counters
/// over all label pairs (below the counter's cap), so after N requests the
/// sum equals N.
pub proof fn lemma_inc_total(m: Seq<CounterEntry>, key: (Seq<char>, Seq<char>))
    requires
        keys_distinct(m),
        count_of(m, key) < u64::MAX,
    ensures
        total_of(inc_spec(m, key)) == total_of(m) + 1,
{
    let m2 = inc_spec(m, key);
    if has_key(m, key) {
        let w = key_index(m, key);
        assert(m[w].0 == key);
        lemma_total_update(m, w, (key, bump(m[w].1)));
        assert(bump(m[w].1) == m[w].1 + 1);
    } else {
        assert(m2.drop_last() =~= m);
        assert(m2.last() == (key, 1u64));
    }
}

} // verus!
