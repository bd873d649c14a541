use vstd::prelude::*;

verus! {

/// Number of `'='` characters in `s`.
pub open spec fn eq_count(s: Seq<char>) -> nat
    decreases s.len(),
{
    if s.len() == 0 {
        0
    } else {
        eq_count(s.drop_last()) + (if s.last() == '=' { 1nat } else { 0nat })
    }
}

/// If some position before `p` holds `'='`, the prefix of length `p` counts at least one.
proof fn lemma_eq_count_prefix_positive(s: Seq<char>, j: int, p: int)
    requires
        0 <= j < p <= s.len(),
        s[j] == '=',
    ensures
        eq_count(s.take(p)) >= 1,
    decreases p,
{
    if j == p - 1 {
        assert(s.take(p).last() == '=');
    } else {
        lemma_eq_count_prefix_positive(s, j, p - 1);
        assert(s.take(p).drop_last() =~= s.take(p - 1));
    }
}

/// Position of the unique `'='` of a line that holds exactly one.
pub open spec fn eq_pos(s: Seq<char>) -> int {
    choose|p: int| 0 <= p < s.len() && s[p] == '=' && eq_count(s.take(p)) == 0
}

/// A line with exactly one `'='` has exactly one position satisfying the
/// `eq_pos` predicate.
proof fn lemma_eq_pos_unique(s: Seq<char>, p1: int, p2: int)
    requires
        0 <= p1 < s.len() && s[p1] == '=' && eq_count(s.take(p1)) == 0,
        0 <= p2 < s.len() && s[p2] == '=' && eq_count(s.take(p2)) == 0,
    ensures
        p1 == p2,
{
    if p1 < p2 {
        lemma_eq_count_prefix_positive(s, p1, p2);
    } else if p2 < p1 {
        lemma_eq_count_prefix_positive(s, p2, p1);
    }
}

/// What parsing one `KEY=VALUE` line yields: the split around the unique `'='`
/// when there is exactly one, nothing otherwise.
pub open spec fn spec_parse_env(s: Seq<char>) -> Option<(Seq<char>, Seq<char>)> {
    if eq_count(s) == 1 {
        let p = eq_pos(s);
        Some((s.take(p), s.skip(p + 1)))
    } else {
        None
    }
}

/// Splits a line holding exactly one `'='` into the text before and after it.
/// Any other line is rejected.
pub fn parse_env(env: &str) -> (r: Option<(String, String)>)
    ensures
        match r {
            Some(kv) => spec_parse_env(env@) == Some((kv.0@, kv.1@)),
            None => spec_parse_env(env@) is None,
        },
{
    let len: usize = env.unicode_len();
    let mut i: usize = 0;
    let mut count: usize = 0;
    let mut pos: usize = 0;
    while i < len
        invariant
            0 <= i <= len,
            len == env@.len(),
            count == eq_count(env@.take(i as int)),
            count <= i,
            count >= 1 ==> pos < i && env@[pos as int] == '=' && eq_count(env@.take(pos as int))
                == 0,
        decreases len - i,
    {
        let c = env.get_char(i);
        proof {
            assert(env@.take(i + 1).drop_last() =~= env@.take(i as int));
            assert(env@.take(i + 1).last() == env@[i as int]);
        }
        if c == '=' {
            if count == 0 {
                pos = i;
            }
            count = count + 1;
        }
        i = i + 1;
    }
    proof {
        assert(env@.take(len as int) =~= env@);
    }
    if count == 1 {
        let key = env.substring_char(0, pos);
        let value = env.substring_char(pos + 1, len);
        proof {
            lemma_eq_pos_unique(env@, eq_pos(env@), pos as int);
            assert(env@.take(pos as int) =~= env@.subrange(0, pos as int));
            assert(env@.skip(pos + 1) =~= env@.subrange(pos + 1, len as int));
        }
        Some((key.to_owned(), value.to_owned()))
    } else {
        None
    }
}

/// The whitespace stripped from the ends of a line: the characters of
/// Unicode's White_Space property, which is what `str::trim` removes.
pub open spec fn is_line_space(c: char) -> bool {
    c == ' ' || c == '\t' || c == '\n' || c == '\r' || c == '\u{b}' || c == '\u{c}' || c
        == '\u{85}' || c == '\u{a0}' || c == '\u{1680}' || c == '\u{2000}' || c == '\u{2001}' || c
        == '\u{2002}' || c == '\u{2003}' || c == '\u{2004}' || c == '\u{2005}' || c == '\u{2006}'
        || c == '\u{2007}' || c == '\u{2008}' || c == '\u{2009}' || c == '\u{200a}' || c
        == '\u{2028}' || c == '\u{2029}' || c == '\u{202f}' || c == '\u{205f}' || c == '\u{3000}'
}

/// `s` without its leading whitespace.
pub open spec fn trim_start_spec(s: Seq<char>) -> Seq<char>
    decreases s.len(),
{
    if s.len() > 0 && is_line_space(s[0]) {
        trim_start_spec(s.skip(1))
    } else {
        s
    }
}

/// `s` without its trailing whitespace.
pub open spec fn trim_end_spec(s: Seq<char>) -> Seq<char>
    decreases s.len(),
{
    if s.len() > 0 && is_line_space(s.last()) {
        trim_end_spec(s.drop_last())
    } else {
        s
    }
}

/// `s` without leading and trailing whitespace.
pub open spec fn trim_spec(s: Seq<char>) -> Seq<char> {
    trim_end_spec(trim_start_spec(s))
}

fn is_line_space_char(c: char) -> (r: bool)
    ensures
        r == is_line_space(c),
{
    c == ' ' || c == '\t' || c == '\n' || c == '\r' || c == '\u{b}' || c == '\u{c}' || c
        == '\u{85}' || c == '\u{a0}' || c == '\u{1680}' || c == '\u{2000}' || c == '\u{2001}' || c
        == '\u{2002}' || c == '\u{2003}' || c == '\u{2004}' || c == '\u{2005}' || c == '\u{2006}'
        || c == '\u{2007}' || c == '\u{2008}' || c == '\u{2009}' || c == '\u{200a}' || c
        == '\u{2028}' || c == '\u{2029}' || c == '\u{202f}' || c == '\u{205f}' || c == '\u{3000}'
}

proof fn lemma_trim_start_skip(s: Seq<char>, i: int)
    requires
        0 <= i <= s.len(),
        forall|j: int| 0 <= j < i ==> is_line_space(s[j]),
    ensures
        trim_start_spec(s) == trim_start_spec(s.skip(i)),
    decreases i,
{
    if i > 0 {
        assert(s.skip(1).skip(i - 1) =~= s.skip(i));
        lemma_trim_start_skip(s.skip(1), i - 1);
    } else {
        assert(s.skip(0) =~= s);
    }
}

proof fn lemma_trim_end_take(s: Seq<char>, i: int)
    requires
        0 <= i <= s.len(),
        forall|j: int| i <= j < s.len() ==> is_line_space(s[j]),
    ensures
        trim_end_spec(s) == trim_end_spec(s.take(i)),
    decreases s.len() - i,
{
    if i < s.len() {
        assert(s.drop_last().take(i) =~= s.take(i));
        lemma_trim_end_take(s.drop_last(), i);
    } else {
        assert(s.take(i) =~= s);
    }
}

/// Strips the whitespace of `is_line_space` from both ends of `s`.
pub fn trim(s: &str) -> (r: String)
    ensures
        r@ == trim_spec(s@),
{
    let len: usize = s.unicode_len();
    let mut start: usize = 0;
    while start < len && is_line_space_char(s.get_char(start))
        invariant
            0 <= start <= len,
            len == s@.len(),
            forall|j: int| 0 <= j < start ==> is_line_space(s@[j]),
        decreases len - start,
    {
        start = start + 1;
    }
    proof {
        lemma_trim_start_skip(s@, start as int);
        if start < len {
            assert(s@.skip(start as int)[0] == s@[start as int]);
        }
        assert(trim_start_spec(s@) == s@.skip(start as int));
    }
    let mut end: usize = len;
    while end > start && is_line_space_char(s.get_char(end - 1))
        invariant
            start <= end <= len,
            len == s@.len(),
            forall|j: int| end <= j < len ==> is_line_space(s@[j]),
        decreases end,
    {
        end = end - 1;
    }
    proof {
        let t = s@.skip(start as int);
        lemma_trim_end_take(t, end - start);
        if end > start {
            assert(t.take(end - start).last() == s@[end - 1]);
        }
        assert(trim_end_spec(t) == t.take(end - start));
        assert(t.take(end - start) =~= s@.subrange(start as int, end as int));
    }
    let r = s.substring_char(start, end);
    r.to_owned()
}

/// Splitting on `'\n'`: the empty text is one empty line, and every newline
/// starts a further line.
pub open spec fn split_lines(s: Seq<char>) -> Seq<Seq<char>>
    decreases s.len(),
{
    if s.len() == 0 {
        seq![Seq::<char>::empty()]
    } else if s[0] == '\n' {
        seq![Seq::<char>::empty()] + split_lines(s.skip(1))
    } else {
        let rest = split_lines(s.skip(1));
        seq![seq![s[0]] + rest[0]] + rest.skip(1)
    }
}

proof fn lemma_split_lines_len(s: Seq<char>)
    ensures
        split_lines(s).len() >= 1,
    decreases s.len(),
{
    if s.len() > 0 {
        lemma_split_lines_len(s.skip(1));
    }
}

/// Appending one character extends the last line, or opens a new one on `'\n'`.
proof fn lemma_split_lines_snoc(s: Seq<char>, c: char)
    ensures
        split_lines(s.push(c)) == if c == '\n' {
            split_lines(s).push(Seq::<char>::empty())
        } else {
            split_lines(s).update(split_lines(s).len() - 1, split_lines(s).last().push(c))
        },
    decreases s.len(),
{
    lemma_split_lines_len(s);
    if s.len() == 0 {
        assert(s.push(c)[0] == c);
        assert(s.push(c).skip(1) =~= Seq::<char>::empty());
        if c == '\n' {
            assert(split_lines(s.push(c)) == seq![Seq::<char>::empty()] + split_lines(
                Seq::<char>::empty(),
            ));
            assert(split_lines(Seq::<char>::empty()) == seq![Seq::<char>::empty()]);
            assert(split_lines(s.push(c)) =~= split_lines(s).push(Seq::<char>::empty()));
        } else {
            assert(seq![c] + split_lines(Seq::<char>::empty())[0] =~= seq![c]);
            assert(split_lines(s.push(c)) =~= split_lines(s).update(
                split_lines(s).len() - 1,
                split_lines(s).last().push(c),
            ));
        }
    } else {
        lemma_split_lines_snoc(s.skip(1), c);
        lemma_split_lines_len(s.skip(1));
        assert(s.push(c)[0] == s[0]);
        assert(s.push(c).skip(1) =~= s.skip(1).push(c));
        let rest = split_lines(s.skip(1));
        let restc = split_lines(s.skip(1).push(c));
        if s[0] == '\n' {
            assert(split_lines(s.push(c)) == seq![Seq::<char>::empty()] + restc);
            assert(split_lines(s) == seq![Seq::<char>::empty()] + rest);
            if c == '\n' {
                assert(restc == rest.push(Seq::<char>::empty()));
                assert(split_lines(s.push(c)) =~= split_lines(s).push(Seq::<char>::empty()));
            } else {
                assert(restc == rest.update(rest.len() - 1, rest.last().push(c)));
                assert(split_lines(s.push(c)) =~= split_lines(s).update(
                    split_lines(s).len() - 1,
                    split_lines(s).last().push(c),
                ));
            }
        } else {
            if c == '\n' {
                assert(restc == rest.push(Seq::<char>::empty()));
                assert(restc[0] == rest[0]);
                assert(restc.skip(1) =~= rest.skip(1).push(Seq::<char>::empty()));
                assert(split_lines(s.push(c)) =~= split_lines(s).push(Seq::<char>::empty()));
            } else {
                assert(restc == rest.update(rest.len() - 1, rest.last().push(c)));
                if rest.len() == 1 {
                    assert(restc[0] == rest[0].push(c));
                    assert(restc.skip(1) =~= rest.skip(1));
                    assert(seq![s[0]] + rest[0].push(c) =~= (seq![s[0]] + rest[0]).push(c));
                    assert(split_lines(s.push(c)) =~= split_lines(s).update(
                        split_lines(s).len() - 1,
                        split_lines(s).last().push(c),
                    ));
                } else {
                    assert(restc[0] == rest[0]);
                    assert(restc.skip(1) =~= rest.skip(1).update(
                        rest.skip(1).len() - 1,
                        rest.skip(1).last().push(c),
                    ));
                    assert(split_lines(s.push(c)) =~= split_lines(s).update(
                        split_lines(s).len() - 1,
                        split_lines(s).last().push(c),
                    ));
                }
            }
        }
    }
}

/// Cuts `s` at every `'\n'`.
pub fn split_into_lines(s: &str) -> (r: Vec<String>)
    ensures
        r@.map_values(|line: String| line@) == split_lines(s@),
{
    let len: usize = s.unicode_len();
    let mut done: Vec<String> = Vec::new();
    let mut seg_start: usize = 0;
    let mut i: usize = 0;
    proof {
        assert(s@.take(0) =~= Seq::<char>::empty());
        assert(done@.map_values(|line: String| line@).push(s@.subrange(0, 0)) =~= seq![
            Seq::<char>::empty(),
        ]);
    }
    while i < len
        invariant
            0 <= seg_start <= i <= len,
            len == s@.len(),
            done@.map_values(|line: String| line@).push(
                s@.subrange(seg_start as int, i as int),
            ) =~= split_lines(s@.take(i as int)),
        decreases len - i,
    {
        let c = s.get_char(i);
        proof {
            lemma_split_lines_snoc(s@.take(i as int), s@[i as int]);
            assert(s@.take(i as int).push(s@[i as int]) =~= s@.take(i + 1));
            lemma_split_lines_len(s@.take(i as int));
        }
        if c == '\n' {
            let seg = s.substring_char(seg_start, i);
            done.push(seg.to_owned());
            seg_start = i + 1;
            proof {
                assert(s@.subrange(seg_start as int, i + 1) =~= Seq::<char>::empty());
                assert(done@.map_values(|line: String| line@).push(
                    s@.subrange(seg_start as int, i + 1),
                ) =~= split_lines(s@.take(i + 1)));
            }
        } else {
            proof {
                assert(s@.subrange(seg_start as int, i as int).push(s@[i as int]) =~= s@.subrange(
                    seg_start as int,
                    i + 1,
                ));
                assert(done@.map_values(|line: String| line@).push(
                    s@.subrange(seg_start as int, i + 1),
                ) =~= split_lines(s@.take(i + 1)));
            }
        }
        i = i + 1;
    }
    let last = s.substring_char(seg_start, len);
    done.push(last.to_owned());
    proof {
        assert(s@.take(len as int) =~= s@);
        assert(done@.map_values(|line: String| line@) =~= split_lines(s@));
    }
    done
}

/// The map described by a list of `(key, value)` entries; a later entry wins.
pub open spec fn entries_map(s: Seq<(String, String)>) -> Map<Seq<char>, Seq<char>>
    decreases s.len(),
{
    if s.len() == 0 {
        Map::empty()
    } else {
        entries_map(s.drop_last()).insert(s.last().0@, s.last().1@)
    }
}

/// An entry list is well formed when no key repeats.
pub open spec fn unique_keys(s: Seq<(String, String)>) -> bool {
    forall|i: int, j: int| 0 <= i < j < s.len() ==> s[i].0@ != s[j].0@
}

proof fn lemma_entries_map_contains(s: Seq<(String, String)>, k: Seq<char>)
    ensures
        entries_map(s).contains_key(k) <==> exists|i: int| 0 <= i < s.len() && s[i].0@ == k,
    decreases s.len(),
{
    if s.len() > 0 {
        lemma_entries_map_contains(s.drop_last(), k);
        if entries_map(s).contains_key(k) {
            if s.last().0@ == k {
                assert(s[s.len() - 1].0@ == k);
            } else {
                let i = choose|i: int| 0 <= i < s.drop_last().len() && s.drop_last()[i].0@ == k;
                assert(s[i].0@ == k);
            }
        }
        if exists|i: int| 0 <= i < s.len() && s[i].0@ == k {
            let i = choose|i: int| 0 <= i < s.len() && s[i].0@ == k;
            if i < s.len() - 1 {
                assert(s.drop_last()[i].0@ == k);
            }
        }
    }
}

proof fn lemma_entries_map_index(s: Seq<(String, String)>, i: int)
    requires
        unique_keys(s),
        0 <= i < s.len(),
    ensures
        entries_map(s).contains_key(s[i].0@),
        entries_map(s)[s[i].0@] == s[i].1@,
    decreases s.len(),
{
    lemma_entries_map_contains(s, s[i].0@);
    if i < s.len() - 1 {
        assert(s.drop_last()[i] == s[i]);
        lemma_entries_map_index(s.drop_last(), i);
        assert(s.last().0@ != s[i].0@);
    }
}

proof fn lemma_entries_map_remove(s: Seq<(String, String)>, i: int)
    requires
        unique_keys(s),
        0 <= i < s.len(),
    ensures
        entries_map(s.remove(i)) == entries_map(s).remove(s[i].0@),
    decreases s.len(),
{
    let k = s[i].0@;
    if i == s.len() - 1 {
        assert(s.remove(i) =~= s.drop_last());
        lemma_entries_map_contains(s.drop_last(), k);
        assert(forall|j: int| 0 <= j < s.drop_last().len() ==> s.drop_last()[j].0@ != k);
        assert(entries_map(s.drop_last()) =~= entries_map(s.drop_last()).remove(k));
        assert(entries_map(s).remove(k) =~= entries_map(s.drop_last()));
    } else {
        assert(s.remove(i).drop_last() =~= s.drop_last().remove(i));
        assert(s.remove(i).last() == s.last());
        lemma_entries_map_remove(s.drop_last(), i);
        assert(s.last().0@ != k);
        assert(entries_map(s.drop_last()).remove(k).insert(s.last().0@, s.last().1@)
            =~= entries_map(s.drop_last()).insert(s.last().0@, s.last().1@).remove(k));
    }
}

/// A bundle of environment variables: a key-to-value map with no repeated key.
#[derive(Clone, Debug)]
pub struct EnvVars {
    entries: Vec<(String, String)>,
}

impl View for EnvVars {
    type V = Map<Seq<char>, Seq<char>>;

    closed spec fn view(&self) -> Map<Seq<char>, Seq<char>> {
        entries_map(self.entries@)
    }
}

impl EnvVars {
    /// No key occurs twice in the backing list.
    pub closed spec fn wf(&self) -> bool {
        unique_keys(self.entries@)
    }

    /// The entries as a list of pairs, for callers that walk the bundle.
    pub closed spec fn spec_entries(&self) -> Seq<(Seq<char>, Seq<char>)> {
        self.entries@.map_values(|e: (String, String)| (e.0@, e.1@))
    }

    /// A bundle with no variables.
    pub fn empty() -> (r: Self)
        ensures
            r@ == Map::<Seq<char>, Seq<char>>::empty(),
            r.wf(),
    {
        EnvVars { entries: Vec::new() }
    }

    /// How many distinct variables the bundle holds.
    pub fn len(&self) -> (r: usize)
        requires
            self.wf(),
        ensures
            r == self.spec_entries().len(),
            r == self@.dom().len(),
    {
        proof {
            lemma_entries_dom_len(self.entries@);
        }
        self.entries.len()
    }

    /// Removes the entry with the given key, if one is there.
    fn remove_key(&mut self, key: &str)
        requires
            old(self).wf(),
        ensures
            final(self).wf(),
            final(self)@ == old(self)@.remove(key@),
            !final(self)@.contains_key(key@),
    {
        let key_owned = key.to_owned();
        let n = self.entries.len();
        let mut i: usize = 0;
        while i < n
            invariant
                0 <= i <= n,
                n == self.entries@.len(),
                self.wf(),
                self == old(self),
                key_owned@ == key@,
                forall|j: int| 0 <= j < i ==> self.entries@[j].0@ != key@,
            decreases n - i,
        {
            if self.entries[i].0.eq(&key_owned) {
                proof {
                    lemma_entries_map_remove(self.entries@, i as int);
                }
                self.entries.remove(i);
                proof {
                    lemma_entries_map_contains(self.entries@, key@);
                    assert(forall|j: int| 0 <= j < self.entries@.len() ==> #[trigger] self
                        .entries@[j].0@ != key@) by {
                        assert forall|j: int| 0 <= j < self.entries@.len() implies #[trigger] self
                            .entries@[j].0@ != key@ by {
                            if j >= i {
                                assert(self.entries@[j] == old(self).entries@[j + 1]);
                            }
                        }
                    }
                }
                return ;
            }
            i = i + 1;
        }
        proof {
            lemma_entries_map_contains(self.entries@, key@);
            assert(self@ =~= self@.remove(key@));
        }
    }

    /// Sets `key` to `value`, replacing any earlier value.
    fn upsert(&mut self, key: String, value: String)
        requires
            old(self).wf(),
        ensures
            final(self).wf(),
            final(self)@ == old(self)@.insert(key@, value@),
    {
        self.remove_key(key.as_str());
        let ghost removed = self.entries@;
        proof {
            lemma_entries_map_contains(removed, key@);
        }
        self.entries.push((key, value));
        proof {
            assert(self.entries@.drop_last() =~= removed);
            assert(self@ =~= old(self)@.insert(self.entries@.last().0@, self.entries@.last().1@));
        }
    }

    /// Looks a key up, returning its value.
    pub fn get(&self, key: &str) -> (r: Option<String>)
        requires
            self.wf(),
        ensures
            match r {
                Some(v) => self@.contains_key(key@) && self@[key@] == v@,
                None => !self@.contains_key(key@),
            },
    {
        let key_owned = key.to_owned();
        let n = self.entries.len();
        let mut i: usize = 0;
        while i < n
            invariant
                0 <= i <= n,
                n == self.entries@.len(),
                self.wf(),
                key_owned@ == key@,
                forall|j: int| 0 <= j < i ==> self.entries@[j].0@ != key@,
            decreases n - i,
        {
            if self.entries[i].0.eq(&key_owned) {
                proof {
                    lemma_entries_map_index(self.entries@, i as int);
                }
                return Some(self.entries[i].1.clone());
            }
            i = i + 1;
        }
        proof {
            lemma_entries_map_contains(self.entries@, key@);
        }
        None
    }
}

/// The map described by a list of borrowed `(key, value)` pairs; a later pair wins.
pub open spec fn pairs_map(s: Seq<(&str, &str)>) -> Map<Seq<char>, Seq<char>>
    decreases s.len(),
{
    if s.len() == 0 {
        Map::empty()
    } else {
        pairs_map(s.drop_last()).insert(s.last().0@, s.last().1@)
    }
}

/// The variables declared by a bundle text, line by line: a blank line says
/// nothing, a line with exactly one `'='` binds its key, any other line is
/// ignored. A later line wins on a repeated key.
pub open spec fn env_entries_of(lines: Seq<Seq<char>>) -> Map<Seq<char>, Seq<char>>
    decreases lines.len(),
{
    if lines.len() == 0 {
        Map::empty()
    } else {
        let m = env_entries_of(lines.drop_last());
        let t = trim_spec(lines.last());
        if t.len() == 0 {
            m
        } else {
            match spec_parse_env(t) {
                Some(kv) => m.insert(kv.0, kv.1),
                None => m,
            }
        }
    }
}

/// The map written down by a newline-separated `KEY=VALUE` text.
pub open spec fn env_of(s: Seq<char>) -> Map<Seq<char>, Seq<char>> {
    env_entries_of(split_lines(s))
}

/// One formatted `KEY=VALUE` line.
pub open spec fn format_entry(kv: (Seq<char>, Seq<char>)) -> Seq<char> {
    kv.0 + seq!['='] + kv.1
}

/// Lines joined by single newlines.
pub open spec fn join_lines(lines: Seq<Seq<char>>) -> Seq<char>
    decreases lines.len(),
{
    if lines.len() == 0 {
        Seq::empty()
    } else if lines.len() == 1 {
        lines[0]
    } else {
        join_lines(lines.drop_last()) + seq!['\n'] + lines.last()
    }
}

impl EnvVars {
    /// The bundle holding the given pairs; on a repeated key the later pair wins.
    pub fn new(env: &[(&str, &str)]) -> (r: Self)
        ensures
            r.wf(),
            r@ == pairs_map(env@),
    {
        let mut acc = EnvVars::empty();
        let n = env.len();
        let mut i: usize = 0;
        proof {
            assert(env@.take(0) =~= Seq::<(&str, &str)>::empty());
        }
        while i < n
            invariant
                0 <= i <= n,
                n == env@.len(),
                acc.wf(),
                acc@ == pairs_map(env@.take(i as int)),
            decreases n - i,
        {
            let pair = env[i];
            acc.upsert(pair.0.to_owned(), pair.1.to_owned());
            proof {
                assert(env@.take(i + 1).drop_last() =~= env@.take(i as int));
                assert(env@.take(i + 1).last() == env@[i as int]);
            }
            i = i + 1;
        }
        proof {
            assert(env@.take(n as int) =~= env@);
        }
        acc
    }

    /// Lays the other bundle over this one; on a shared key the other wins.
    pub fn merge(self, other: &EnvVars) -> (r: Self)
        requires
            self.wf(),
            other.wf(),
        ensures
            r.wf(),
            r@ == self@.union_prefer_right(other@),
    {
        let ghost orig = self@;
        let mut acc = self;
        let n = other.entries.len();
        let mut i: usize = 0;
        proof {
            assert(other.entries@.take(0) =~= Seq::<(String, String)>::empty());
            assert(orig.union_prefer_right(Map::empty()) =~= orig);
        }
        while i < n
            invariant
                0 <= i <= n,
                n == other.entries@.len(),
                acc.wf(),
                acc@ == orig.union_prefer_right(entries_map(other.entries@.take(i as int))),
            decreases n - i,
        {
            let key = other.entries[i].0.clone();
            let value = other.entries[i].1.clone();
            acc.upsert(key, value);
            proof {
                let prefix = other.entries@.take(i as int);
                let e = other.entries@[i as int];
                assert(other.entries@.take(i + 1).drop_last() =~= prefix);
                assert(other.entries@.take(i + 1).last() == e);
                assert(orig.union_prefer_right(entries_map(prefix)).insert(e.0@, e.1@)
                    =~= orig.union_prefer_right(entries_map(other.entries@.take(i + 1))));
            }
            i = i + 1;
        }
        proof {
            assert(other.entries@.take(n as int) =~= other.entries@);
        }
        acc
    }

    /// Reads a bundle from a newline-separated `KEY=VALUE` text.
    pub fn parse(s: &str) -> (r: Self)
        ensures
            r.wf(),
            r@ == env_of(s@),
    {
        let lines = split_into_lines(s);
        let mut acc = EnvVars::empty();
        let n = lines.len();
        let mut i: usize = 0;
        proof {
            assert(lines@.map_values(|line: String| line@).take(0) =~= Seq::<Seq<char>>::empty());
        }
        while i < n
            invariant
                0 <= i <= n,
                n == lines@.len(),
                acc.wf(),
                lines@.map_values(|line: String| line@) == split_lines(s@),
                acc@ == env_entries_of(lines@.map_values(|line: String| line@).take(i as int)),
            decreases n - i,
        {
            let ghost lviews = lines@.map_values(|line: String| line@);
            proof {
                assert(lviews.take(i + 1).drop_last() =~= lviews.take(i as int));
                assert(lviews.take(i + 1).last() == lviews[i as int]);
                assert(lviews[i as int] == lines@[i as int]@);
            }
            let t = trim(lines[i].as_str());
            if !t.as_str().is_empty() {
                match parse_env(t.as_str()) {
                    Some(kv) => {
                        acc.upsert(kv.0, kv.1);
                    },
                    None => {},
                }
            }
            i = i + 1;
        }
        proof {
            assert(lines@.map_values(|line: String| line@).take(n as int) =~= split_lines(s@));
        }
        acc
    }

    /// Writes the bundle out as `KEY=VALUE` lines, one per entry.
    pub fn format(&self) -> (r: Vec<String>)
        requires
            self.wf(),
        ensures
            r@.map_values(|line: String| line@) == self.spec_entries().map_values(|kv: (Seq<char>, Seq<char>)| format_entry(kv)),
    {
        proof {
            reveal_strlit("=");
        }
        let ghost target = self.spec_entries().map_values(
            |kv: (Seq<char>, Seq<char>)| format_entry(kv),
        );
        let mut out: Vec<String> = Vec::new();
        let n = self.entries.len();
        let mut i: usize = 0;
        while i < n
            invariant
                0 <= i <= n,
                n == self.entries@.len(),
                target == self.spec_entries().map_values(|kv: (Seq<char>, Seq<char>)| format_entry(kv)),
                out@.len() == i,
                forall|j: int| 0 <= j < i ==> out@.map_values(|line: String| line@)[j] == target[
                    j
                ],
            decreases n - i,
        {
            let mut line = self.entries[i].0.clone();
            line.append("=");
            line.append(self.entries[i].1.as_str());
            proof {
                reveal_strlit("=");
                assert("="@ =~= seq!['=']);
                assert(line@ =~= format_entry(self.spec_entries()[i as int]));
            }
            out.push(line);
            i = i + 1;
        }
        proof {
            assert(out@.map_values(|line: String| line@) =~= target);
        }
        out
    }

    /// Writes the bundle out as one newline-separated text.
    pub fn format_joined(&self) -> (r: String)
        requires
            self.wf(),
        ensures
            r@ == join_lines(self.spec_entries().map_values(|kv: (Seq<char>, Seq<char>)| format_entry(kv))),
    {
        let lines = self.format();
        let ghost target = self.spec_entries().map_values(|kv: (Seq<char>, Seq<char>)| format_entry(kv));
        let mut out = String::new();
        let n = lines.len();
        let mut i: usize = 0;
        while i < n
            invariant
                0 <= i <= n,
                n == lines@.len(),
                lines@.map_values(|line: String| line@) == target,
                out@ == join_lines(target.take(i as int)),
            decreases n - i,
        {
            proof {
                reveal_strlit("\n");
                assert("\n"@ =~= seq!['\n']);
                assert(target.take(i + 1).drop_last() =~= target.take(i as int));
                assert(target.take(i + 1).last() == target[i as int]);
            }
            if i > 0 {
                out.append("\n");
            }
            out.append(lines[i].as_str());
            proof {
                if i == 0 {
                    assert(out@ =~= join_lines(target.take(1)));
                } else {
                    assert(out@ =~= join_lines(target.take(i + 1)));
                }
            }
            i = i + 1;
        }
        proof {
            assert(target.take(n as int) =~= target);
        }
        out
    }
}

/// Merge override law: a key set by the overlay reads from the overlay, any
/// other key reads from the base.
pub proof fn lemma_merge_override(
    a: Map<Seq<char>, Seq<char>>,
    b: Map<Seq<char>, Seq<char>>,
    k: Seq<char>,
)
    ensures
        b.contains_key(k) ==> a.union_prefer_right(b).contains_key(k)
            && a.union_prefer_right(b)[k] == b[k],
        !b.contains_key(k) && a.contains_key(k) ==> a.union_prefer_right(b).contains_key(k)
            && a.union_prefer_right(b)[k] == a[k],
        !b.contains_key(k) && !a.contains_key(k) ==> !a.union_prefer_right(b).contains_key(k),
{
}

proof fn lemma_eq_count_concat(a: Seq<char>, b: Seq<char>)
    ensures
        eq_count(a + b) == eq_count(a) + eq_count(b),
    decreases b.len(),
{
    if b.len() == 0 {
        assert(a + b =~= a);
    } else {
        assert((a + b).drop_last() =~= a + b.drop_last());
        assert((a + b).last() == b.last());
        lemma_eq_count_concat(a, b.drop_last());
    }
}

proof fn lemma_contains_skip(s: Seq<char>, c: char)
    requires
        !s.contains(c),
        s.len() > 0,
    ensures
        !s.skip(1).contains(c),
{
    if s.skip(1).contains(c) {
        let i = choose|i: int| 0 <= i < s.skip(1).len() && s.skip(1)[i] == c;
        assert(s[i + 1] == c);
    }
}

/// A line without newlines splits into just itself.
proof fn lemma_split_single(s: Seq<char>)
    requires
        !s.contains('\n'),
    ensures
        split_lines(s) == seq![s],
    decreases s.len(),
{
    if s.len() == 0 {
        assert(s =~= Seq::<char>::empty());
        assert(split_lines(s) =~= seq![s]);
    } else {
        assert(s[0] != '\n');
        lemma_contains_skip(s, '\n');
        lemma_split_single(s.skip(1));
        let rest = split_lines(s.skip(1));
        assert(rest[0] == s.skip(1));
        assert(seq![s[0]] + s.skip(1) =~= s);
        assert(rest.skip(1) =~= Seq::<Seq<char>>::empty());
        assert(split_lines(s) =~= seq![s]);
    }
}

/// Splitting distributes over a newline between two texts.
proof fn lemma_split_concat(a: Seq<char>, b: Seq<char>)
    ensures
        split_lines(a + seq!['\n'] + b) == split_lines(a) + split_lines(b),
    decreases a.len(),
{
    lemma_split_lines_len(a);
    lemma_split_lines_len(b);
    let s = a + seq!['\n'] + b;
    if a.len() == 0 {
        assert(s[0] == '\n');
        assert(s.skip(1) =~= b);
        assert(split_lines(a) =~= seq![Seq::<char>::empty()]);
        assert(split_lines(s) =~= split_lines(a) + split_lines(b));
    } else {
        assert(s[0] == a[0]);
        assert(s.skip(1) =~= a.skip(1) + seq!['\n'] + b);
        lemma_split_concat(a.skip(1), b);
        lemma_split_lines_len(a.skip(1));
        let r = split_lines(a.skip(1) + seq!['\n'] + b);
        let sa = split_lines(a.skip(1));
        assert(r == sa + split_lines(b));
        if a[0] == '\n' {
            assert(split_lines(s) == seq![Seq::<char>::empty()] + r);
            assert(split_lines(a) == seq![Seq::<char>::empty()] + sa);
            assert(split_lines(s) =~= split_lines(a) + split_lines(b));
        } else {
            assert(r[0] == sa[0]);
            assert(r.skip(1) =~= sa.skip(1) + split_lines(b));
            assert(split_lines(s) == seq![seq![s[0]] + r[0]] + r.skip(1));
            assert(split_lines(a) == seq![seq![a[0]] + sa[0]] + sa.skip(1));
            assert(split_lines(s) =~= split_lines(a) + split_lines(b));
        }
    }
}

/// An entry survives the round trip: its formatted line holds no newline,
/// trims to itself, and parses back to the entry.
pub open spec fn entry_clean(kv: (Seq<char>, Seq<char>)) -> bool {
    &&& eq_count(kv.0) == 0
    &&& eq_count(kv.1) == 0
    &&& !kv.0.contains('\n')
    &&& !kv.1.contains('\n')
    &&& (kv.0.len() > 0 ==> !is_line_space(kv.0[0]))
    &&& (kv.1.len() > 0 ==> !is_line_space(kv.1.last()))
}

proof fn lemma_line_round_trip(kv: (Seq<char>, Seq<char>))
    requires
        entry_clean(kv),
    ensures
        format_entry(kv).len() > 0,
        !format_entry(kv).contains('\n'),
        trim_spec(format_entry(kv)) == format_entry(kv),
        spec_parse_env(format_entry(kv)) == Some(kv),
{
    let k = kv.0;
    let v = kv.1;
    let line = format_entry(kv);
    assert(line =~= (k + seq!['=']) + v);
    lemma_eq_count_concat(k, seq!['=']);
    assert(eq_count(seq!['=']) == 1) by {
        assert(seq!['='].len() == 1);
        assert(seq!['='].last() == '=');
        assert(seq!['='].drop_last() =~= Seq::<char>::empty());
        assert(eq_count(Seq::<char>::empty()) == 0);
    }
    lemma_eq_count_concat(k + seq!['='], v);
    assert(eq_count(line) == 1);
    if line.contains('\n') {
        let i = choose|i: int| 0 <= i < line.len() && line[i] == '\n';
        if i < k.len() {
            assert(k[i] == '\n');
        } else if i > k.len() {
            assert(v[i - k.len() - 1] == '\n');
        }
    }
    assert(line[0] == if k.len() > 0 {
        k[0]
    } else {
        '='
    });
    assert(!is_line_space(line[0]));
    assert(line.last() == if v.len() > 0 {
        v.last()
    } else {
        '='
    });
    assert(!is_line_space(line.last()));
    assert(trim_start_spec(line) == line);
    assert(trim_end_spec(line) == line);
    let p = k.len() as int;
    assert(line[p] == '=');
    assert(line.take(p) =~= k);
    assert(eq_count(line.take(p)) == 0);
    lemma_eq_pos_unique(line, eq_pos(line), p);
    assert(line.skip(p + 1) =~= v);
}

/// The views of the backing entries.
pub open spec fn entry_views(entries: Seq<(String, String)>) -> Seq<(Seq<char>, Seq<char>)> {
    entries.map_values(|e: (String, String)| (e.0@, e.1@))
}

proof fn lemma_entries_env(entries: Seq<(String, String)>)
    requires
        forall|i: int| 0 <= i < entries.len() ==> entry_clean(#[trigger] entry_views(entries)[i]),
    ensures
        env_entries_of(entry_views(entries).map_values(|kv: (Seq<char>, Seq<char>)| format_entry(kv)))
            == entries_map(entries),
    decreases entries.len(),
{
    let lines = entry_views(entries).map_values(|kv: (Seq<char>, Seq<char>)| format_entry(kv));
    if entries.len() == 0 {
        assert(lines =~= Seq::<Seq<char>>::empty());
    } else {
        let prev = entries.drop_last();
        assert(forall|i: int|
            0 <= i < prev.len() ==> entry_views(prev)[i] == entry_views(entries)[i]);
        lemma_entries_env(prev);
        let prev_lines = entry_views(prev).map_values(
            |kv: (Seq<char>, Seq<char>)| format_entry(kv),
        );
        assert(lines.drop_last() =~= prev_lines);
        let kv = entry_views(entries)[entries.len() - 1];
        assert(lines.last() == format_entry(kv));
        lemma_line_round_trip(kv);
        assert(trim_spec(lines.last()).len() > 0);
        assert(env_entries_of(lines) == env_entries_of(prev_lines).insert(kv.0, kv.1));
    }
}

/// Round trip: a well-formed bundle of clean entries, written out with
/// `format` and joined by newlines, parses back to exactly the same map.
pub proof fn lemma_env_round_trip(e: EnvVars)
    requires
        e.wf(),
        forall|i: int|
            0 <= i < e.spec_entries().len() ==> entry_clean(#[trigger] e.spec_entries()[i]),
    ensures
        env_of(join_lines(e.spec_entries().map_values(|kv: (Seq<char>, Seq<char>)| format_entry(kv))))
            == e@,
{
    assert(e.spec_entries() == entry_views(e.entries@));
    assert forall|i: int| 0 <= i < e.entries@.len() implies entry_clean(
        #[trigger] entry_views(e.entries@)[i],
    ) by {
        assert(entry_views(e.entries@)[i] == e.spec_entries()[i]);
    }
    lemma_join_then_split(e.entries@);
    lemma_entries_env(e.entries@);
}

/// Joining clean formatted lines and splitting again yields those lines,
/// so parsing sees exactly the formatted entries.
proof fn lemma_join_then_split(entries: Seq<(String, String)>)
    requires
        forall|i: int| 0 <= i < entries.len() ==> entry_clean(#[trigger] entry_views(entries)[i]),
    ensures
        env_of(join_lines(entry_views(entries).map_values(|kv: (Seq<char>, Seq<char>)| format_entry(kv))))
            == env_entries_of(
            entry_views(entries).map_values(|kv: (Seq<char>, Seq<char>)| format_entry(kv)),
        ),
    decreases entries.len(),
{
    let lines = entry_views(entries).map_values(|kv: (Seq<char>, Seq<char>)| format_entry(kv));
    if entries.len() == 0 {
        assert(lines =~= Seq::<Seq<char>>::empty());
        assert(join_lines(lines) == Seq::<char>::empty());
        assert(split_lines(Seq::<char>::empty()) =~= seq![Seq::<char>::empty()]);
        assert(env_of(join_lines(lines)) == env_entries_of(seq![Seq::<char>::empty()]));
        assert(trim_spec(Seq::<char>::empty()) == Seq::<char>::empty());
        assert(seq![Seq::<char>::empty()].drop_last() =~= Seq::<Seq<char>>::empty());
        assert(env_entries_of(Seq::<Seq<char>>::empty()) == Map::<Seq<char>, Seq<char>>::empty());
        assert(seq![Seq::<char>::empty()].last() =~= Seq::<char>::empty());
        assert(env_entries_of(seq![Seq::<char>::empty()]) =~= Map::<Seq<char>, Seq<char>>::empty());
        assert(env_entries_of(lines) =~= Map::<Seq<char>, Seq<char>>::empty());
    } else {
        lemma_split_of_clean_lines(entries);
    }
}

/// For a non-empty list of clean entries, splitting the joined lines gives
/// back the lines themselves.
proof fn lemma_split_of_clean_lines(entries: Seq<(String, String)>)
    requires
        entries.len() > 0,
        forall|i: int| 0 <= i < entries.len() ==> entry_clean(#[trigger] entry_views(entries)[i]),
    ensures
        split_lines(
            join_lines(entry_views(entries).map_values(|kv: (Seq<char>, Seq<char>)| format_entry(kv))),
        ) == entry_views(entries).map_values(|kv: (Seq<char>, Seq<char>)| format_entry(kv)),
    decreases entries.len(),
{
    let lines = entry_views(entries).map_values(|kv: (Seq<char>, Seq<char>)| format_entry(kv));
    lemma_line_round_trip(entry_views(entries)[entries.len() - 1]);
    if entries.len() == 1 {
        assert(join_lines(lines) == lines[0]);
        lemma_split_single(lines[0]);
        assert(split_lines(join_lines(lines)) =~= lines);
    } else {
        let prev = entries.drop_last();
        assert(forall|i: int|
            0 <= i < prev.len() ==> entry_views(prev)[i] == entry_views(entries)[i]);
        lemma_split_of_clean_lines(prev);
        let prev_lines = entry_views(prev).map_values(
            |kv: (Seq<char>, Seq<char>)| format_entry(kv),
        );
        assert(lines.drop_last() =~= prev_lines);
        assert(join_lines(lines) == join_lines(prev_lines) + seq!['\n'] + lines.last());
        lemma_split_concat(join_lines(prev_lines), lines.last());
        lemma_split_single(lines.last());
        assert(split_lines(join_lines(lines)) =~= lines);
    }
}

proof fn lemma_entries_dom_len(s: Seq<(String, String)>)
    requires
        unique_keys(s),
    ensures
        entries_map(s).dom().len() == s.len(),
        entries_map(s).dom().finite(),
    decreases s.len(),
{
    if s.len() > 0 {
        lemma_entries_dom_len(s.drop_last());
        lemma_entries_map_contains(s.drop_last(), s.last().0@);
        assert(forall|j: int| 0 <= j < s.drop_last().len() ==> s.drop_last()[j].0@ != s.last().0@);
        assert(!entries_map(s.drop_last()).contains_key(s.last().0@));
        assert(entries_map(s).dom() =~= entries_map(s.drop_last()).dom().insert(s.last().0@));
        vstd::set::axiom_set_insert_finite(entries_map(s.drop_last()).dom(), s.last().0@);
        vstd::set::axiom_set_insert_len(entries_map(s.drop_last()).dom(), s.last().0@);
    }
}

} // verus!
