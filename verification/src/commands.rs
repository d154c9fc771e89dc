//! Semantic commands: named templates with `{name}` placeholders that are
//! filled in and sent to a running task.

use crate::pattern::is_word;
use crate::pattern::word_character;
use crate::strmap::StrMap;
use crate::text::chars_of;
use crate::text::matches_at;
use crate::text::occurs_at;
use crate::text::push_all;
use crate::text::str_eq;
use crate::text::string_of;
use vstd::prelude::*;

verus! {

/// For each character of `t`, whether it may stand in a placeholder's
/// name: whether it is a word character.
pub open spec fn word_flags_of(t: Seq<char>) -> Seq<bool> {
    Seq::new(t.len(), |i: int| is_word(t[i]))
}

/// The text that stands for the parameter `key` in a template.
pub open spec fn placeholder(key: Seq<char>) -> Seq<char> {
    seq!['{'] + key + seq!['}']
}

/// Where the run of name characters that starts at index `from` ends,
/// `word` saying of each character whether it is one: the first index
/// from there on at which `word` is false, or the length of `word`.
pub open spec fn run_end(word: Seq<bool>, from: int) -> int
    decreases word.len() - from,
{
    if from < 0 || from >= word.len() || !word[from] {
        from
    } else {
        run_end(word, from + 1)
    }
}

/// The name of the placeholder that starts at index `i` of `t`, if one
/// starts there: an opening brace, a run of name characters that is not
/// empty, and a closing brace where the run ends.
pub open spec fn name_at(t: Seq<char>, word: Seq<bool>, i: int) -> Option<Seq<char>> {
    let end = run_end(word, i + 1);
    if 0 <= i < t.len() && t[i] == '{' && end > i + 1 && end < t.len() && t[end] == '}' {
        Some(t.subrange(i + 1, end))
    } else {
        None
    }
}

/// The names of the placeholders that start before index `n` of `t`, in
/// the order in which they stand.
pub open spec fn names_before(t: Seq<char>, word: Seq<bool>, n: int) -> Seq<Seq<char>>
    decreases n,
{
    if n <= 0 {
        Seq::empty()
    } else {
        match name_at(t, word, n - 1) {
            Some(name) => names_before(t, word, n - 1).push(name),
            None => names_before(t, word, n - 1),
        }
    }
}

/// The names of all placeholders of `t`, in order, `word` saying of each
/// character whether it may stand in a name.
pub open spec fn names_in(t: Seq<char>, word: Seq<bool>) -> Seq<Seq<char>> {
    names_before(t, word, t.len() as int)
}

/// The names of all placeholders of `t`, in order, a name being made of
/// word characters.
pub open spec fn param_names(t: Seq<char>) -> Seq<Seq<char>> {
    names_in(t, word_flags_of(t))
}

/// The index of the first key whose placeholder stands at index `i` of
/// `t`, among the first `n` keys; `n` where there is none.
pub open spec fn key_hit(t: Seq<char>, keys: Seq<Seq<char>>, i: int, n: int) -> int
    decreases n,
{
    if n <= 0 {
        0
    } else {
        let before = key_hit(t, keys, i, n - 1);
        if before < n - 1 {
            before
        } else if occurs_at(t, placeholder(keys[n - 1]), i) {
            n - 1
        } else {
            n
        }
    }
}

/// The text of `t` from index `i` on, with each placeholder of a key
/// replaced by the key's value. The text is read once from left to right:
/// what a value brings in is not read again.
pub open spec fn rendered_from(
    t: Seq<char>,
    keys: Seq<Seq<char>>,
    values: Seq<Seq<char>>,
    i: int,
) -> Seq<char>
    decreases
        if i < t.len() {
            t.len() - i
        } else {
            0
        },
{
    if i < 0 || i >= t.len() {
        Seq::empty()
    } else {
        let k = key_hit(t, keys, i, keys.len() as int);
        if 0 <= k < keys.len() {
            values[k] + rendered_from(t, keys, values, i + keys[k].len() + 2)
        } else {
            seq![t[i]] + rendered_from(t, keys, values, i + 1)
        }
    }
}

/// The template `t` with each placeholder of a key replaced by the key's
/// value.
pub open spec fn rendered(t: Seq<char>, keys: Seq<Seq<char>>, values: Seq<Seq<char>>) -> Seq<char> {
    rendered_from(t, keys, values, 0)
}

/// The values of a map of strings, as sequences of characters.
pub open spec fn texts(values: Seq<String>) -> Seq<Seq<char>> {
    Seq::new(values.len(), |i: int| values[i]@)
}

/// For each character of `t`, whether it is a word character.
pub fn word_flags(t: &Vec<char>) -> (word: Vec<bool>)
    ensures
        word@ == word_flags_of(t@),
{
    let mut word: Vec<bool> = Vec::new();
    let mut i: usize = 0;
    while i < t.len()
        invariant
            i <= t.len(),
            word@.len() == i,
            forall|j: int| 0 <= j < i ==> #[trigger] word@[j] == is_word(t@[j]),
        decreases t.len() - i,
    {
        word.push(word_character(t[i]));
        i += 1;
    }
    assert(word@ =~= word_flags_of(t@));
    word
}

/// The name of the placeholder that starts at index `i`, if one does.
fn placeholder_at(t: &Vec<char>, word: &Vec<bool>, i: usize) -> (r: Option<Vec<char>>)
    requires
        i < t.len(),
    ensures
        match r {
            Some(name) => name_at(t@, word@, i as int) == Some(name@),
            None => name_at(t@, word@, i as int) is None,
        },
{
    if t[i] != '{' {
        return None;
    }
    let mut to: usize = i + 1;
    let mut name: Vec<char> = Vec::new();
    while to < t.len() && to < word.len() && word[to]
        invariant
            i < to <= t.len(),
            run_end(word@, i + 1) == run_end(word@, to as int),
            name@ == t@.subrange(i + 1, to as int),
        decreases t.len() - to,
    {
        name.push(t[to]);
        to += 1;
        assert(name@ =~= t@.subrange(i + 1, to as int));
    }
    if to >= t.len() {
        // the run reaches the end of the text: no closing brace follows
        proof {
            lemma_run_end_grows(word@, to as int);
        }
        return None;
    }
    if to > i + 1 && t[to] == '}' {
        Some(name)
    } else {
        None
    }
}

/// A run ends no earlier than it starts.
proof fn lemma_run_end_grows(word: Seq<bool>, from: int)
    ensures
        run_end(word, from) >= from,
    decreases word.len() - from,
{
    if !(from < 0 || from >= word.len() || !word[from]) {
        lemma_run_end_grows(word, from + 1);
    }
}

/// The names of the placeholders of `t`, in order, each as often as it
/// stands there, `word` saying of each character of `t` whether it may
/// stand in a name.
pub fn placeholder_names(t: &Vec<char>, word: &Vec<bool>) -> (names: Vec<String>)
    ensures
        names.deep_view() == names_in(t@, word@),
{
    let mut names: Vec<String> = Vec::new();
    let mut i: usize = 0;
    assert(names.deep_view() =~= names_before(t@, word@, 0));
    while i < t.len()
        invariant
            i <= t.len(),
            names.deep_view() == names_before(t@, word@, i as int),
        decreases t.len() - i,
    {
        match placeholder_at(t, word, i) {
            Some(name) => {
                let ghost before = names.deep_view();
                names.push(string_of(&name));
                assert(names.deep_view() =~= before.push(name@));
            },
            None => {},
        }
        i += 1;
    }
    names
}

/// A command that can be sent to a task: a label, a template, and the
/// names of the parameters that the template asks for.
#[derive(Debug)]
pub struct SemanticCommand {
    pub label: String,
    pub template: String,
    pub params: Vec<String>,
}

impl SemanticCommand {
    /// A command with every field as given and the parameters read off
    /// the template.
    pub fn new(label: &str, template: &str) -> (cmd: Self)
        ensures
            cmd.label@ == label@,
            cmd.template@ == template@,
            cmd.params.deep_view() == param_names(template@),
    {
        let params = Self::extract_params(template);
        SemanticCommand {
            label: string_of(&chars_of(label)),
            template: string_of(&chars_of(template)),
            params,
        }
    }

    /// The names of the placeholders of `template`, in order, each as often
    /// as it stands there.
    pub fn extract_params(template: &str) -> (names: Vec<String>)
        ensures
            names.deep_view() == param_names(template@),
    {
        let t = chars_of(template);
        let word = word_flags(&t);
        placeholder_names(&t, &word)
    }

    /// Whether the template asks for parameters.
    pub fn needs_params(&self) -> (b: bool)
        ensures
            b == (self.params@.len() > 0),
    {
        self.params.len() > 0
    }

    /// The template with each placeholder of a key of `params` replaced by
    /// the key's value; everything else, placeholders of other names
    /// included, stays as it is.
    pub fn render(&self, params: &StrMap<String>) -> (out: String)
        requires
            params.wf(),
        ensures
            out@ == rendered(self.template@, params.keys(), texts(params.values())),
    {
        let t = chars_of(self.template.as_str());
        let mut out: Vec<char> = Vec::new();
        let ghost keys = params.keys();
        let ghost values = texts(params.values());
        let n = params.len();
        let mut i: usize = 0;
        while i < t.len()
            invariant
                params.wf(),
                n == params.keys().len(),
                keys == params.keys(),
                values == texts(params.values()),
                i <= t.len(),
                out@ + rendered_from(t@, keys, values, i as int) == rendered(t@, keys, values),
            decreases t.len() - i,
        {
            let mut k: usize = 0;
            let mut hit: Option<usize> = None;
            while k < n && hit.is_none()
                invariant
                    params.wf(),
                    n == params.keys().len(),
                    keys == params.keys(),
                    i < t.len(),
                    k <= n,
                    match hit {
                        Some(h) => h < k && key_hit(t@, keys, i as int, k as int) == h,
                        None => key_hit(t@, keys, i as int, k as int) == k,
                    },
                decreases n - k + if hit.is_none() { 1int } else { 0int },
            {
                let mut probe: Vec<char> = Vec::new();
                probe.push('{');
                push_all(&mut probe, &chars_of(params.key_at(k).as_str()));
                probe.push('}');
                assert(probe@ =~= placeholder(keys[k as int]));
                if matches_at(&t, &probe, i) {
                    hit = Some(k);
                }
                k += 1;
            }
            proof {
                lemma_key_hit_stays(t@, keys, i as int, k as int, n as int);
            }
            let ghost before = out@;
            match hit {
                Some(h) => {
                    let value = chars_of(params.value_at(h).as_str());
                    let width = params.key_at(h).as_str().unicode_len();
                    assert(occurs_at(t@, placeholder(keys[h as int]), i as int)) by {
                        lemma_key_hit_occurs(t@, keys, i as int, n as int);
                    }
                    assert(placeholder(keys[h as int]).len() == width + 2);
                    push_all(&mut out, &value);
                    assert(out@ + rendered_from(t@, keys, values, i + width + 2) =~= before + (values[h as int]
                        + rendered_from(t@, keys, values, i + width + 2)));
                    i = i + width + 2;
                },
                None => {
                    out.push(t[i]);
                    assert(out@ + rendered_from(t@, keys, values, i + 1) =~= before + (seq![t@[i as int]]
                        + rendered_from(t@, keys, values, i + 1)));
                    i += 1;
                },
            }
        }
        assert(out@ + Seq::<char>::empty() =~= out@);
        string_of(&out)
    }
}

/// A key that was hit among the first `k` keys is the hit among more keys.
pub proof fn lemma_key_hit_stays(t: Seq<char>, keys: Seq<Seq<char>>, i: int, k: int, n: int)
    requires
        0 <= k <= n,
        key_hit(t, keys, i, k) < k || k == n,
    ensures
        key_hit(t, keys, i, n) == if key_hit(t, keys, i, k) < k {
            key_hit(t, keys, i, k)
        } else {
            n
        },
    decreases n - k,
{
    if k < n {
        lemma_key_hit_stays(t, keys, i, k, n - 1);
    }
}

/// The key that is hit is one whose placeholder stands there, and no key
/// before it has its placeholder there.
pub proof fn lemma_key_hit_occurs(t: Seq<char>, keys: Seq<Seq<char>>, i: int, n: int)
    requires
        0 <= n <= keys.len(),
    ensures
        0 <= key_hit(t, keys, i, n) <= n,
        key_hit(t, keys, i, n) < n ==> occurs_at(t, placeholder(keys[key_hit(t, keys, i, n)]), i),
        forall|j: int| 0 <= j < key_hit(t, keys, i, n) ==> !occurs_at(t, placeholder(#[trigger] keys[j]), i),
    decreases n,
{
    if n > 0 {
        lemma_key_hit_occurs(t, keys, i, n - 1);
    }
}

/// Whether `key` holds neither an opening nor a closing brace.
pub open spec fn brace_free(key: Seq<char>) -> bool {
    forall|j: int| 0 <= j < key.len() ==> #[trigger] key[j] != '{' && key[j] != '}'
}

/// Whether no key holds a brace.
pub open spec fn keys_brace_free(keys: Seq<Seq<char>>) -> bool {
    forall|k: int| 0 <= k < keys.len() ==> brace_free(#[trigger] keys[k])
}

/// Texts in which the same placeholders stand at two places are hit by
/// the same key there.
proof fn lemma_key_hit_same(
    t1: Seq<char>,
    i1: int,
    t2: Seq<char>,
    i2: int,
    keys: Seq<Seq<char>>,
    n: int,
)
    requires
        0 <= n <= keys.len(),
        forall|j: int|
            0 <= j < n ==> occurs_at(t1, placeholder(#[trigger] keys[j]), i1) == occurs_at(
                t2,
                placeholder(keys[j]),
                i2,
            ),
    ensures
        key_hit(t1, keys, i1, n) == key_hit(t2, keys, i2, n),
    decreases n,
{
    if n > 0 {
        lemma_key_hit_same(t1, i1, t2, i2, keys, n - 1);
        assert(occurs_at(t1, placeholder(keys[n - 1]), i1) == occurs_at(t2, placeholder(keys[n - 1]), i2));
    }
}

/// What follows a prefix is rendered as if the prefix were not there.
proof fn lemma_render_shift(
    a: Seq<char>,
    b: Seq<char>,
    keys: Seq<Seq<char>>,
    values: Seq<Seq<char>>,
    i: int,
)
    requires
        0 <= i,
    ensures
        rendered_from(a + b, keys, values, a.len() + i) == rendered_from(b, keys, values, i),
    decreases
        if i < b.len() {
            b.len() - i
        } else {
            0
        },
{
    let t = a + b;
    if i < b.len() {
        assert forall|j: int| 0 <= j < keys.len() implies occurs_at(
            t,
            placeholder(#[trigger] keys[j]),
            a.len() + i,
        ) == occurs_at(b, placeholder(keys[j]), i) by {
            let p = placeholder(keys[j]);
            if i + p.len() <= b.len() {
                assert(t.subrange(a.len() + i, a.len() + i + p.len()) =~= b.subrange(i, i + p.len()));
            }
        }
        lemma_key_hit_same(t, a.len() + i, b, i, keys, keys.len() as int);
        let k = key_hit(b, keys, i, keys.len() as int);
        if 0 <= k < keys.len() {
            lemma_render_shift(a, b, keys, values, i + keys[k].len() + 2);
        } else {
            lemma_render_shift(a, b, keys, values, i + 1);
            assert(t[a.len() + i] == b[i]);
        }
    }
}

/// A text is rendered piece by piece where the second piece starts with
/// an opening brace: no placeholder of a brace-free key reaches across.
proof fn lemma_render_prefix(
    a: Seq<char>,
    b: Seq<char>,
    keys: Seq<Seq<char>>,
    values: Seq<Seq<char>>,
    i: int,
)
    requires
        keys_brace_free(keys),
        0 <= i <= a.len(),
        b.len() == 0 || b[0] == '{',
    ensures
        rendered_from(a + b, keys, values, i) == rendered_from(a, keys, values, i) + rendered_from(
            a + b,
            keys,
            values,
            a.len() as int,
        ),
    decreases a.len() - i,
{
    let t = a + b;
    if i < a.len() {
        assert forall|j: int| 0 <= j < keys.len() implies occurs_at(t, placeholder(#[trigger] keys[j]), i)
            == occurs_at(a, placeholder(keys[j]), i) by {
            let p = placeholder(keys[j]);
            if i + p.len() <= a.len() {
                assert(t.subrange(i, i + p.len()) =~= a.subrange(i, i + p.len()));
            } else if occurs_at(t, p, i) {
                let at = a.len() - i;
                assert(t.subrange(i, i + p.len())[at] == t[a.len() as int]);
                assert(p[at] == '{');
                assert(brace_free(keys[j]));
                if at < p.len() - 1 {
                    assert(p[at] == keys[j][at - 1]);
                }
            }
        }
        lemma_key_hit_same(t, i, a, i, keys, keys.len() as int);
        lemma_key_hit_occurs(a, keys, i, keys.len() as int);
        let k = key_hit(a, keys, i, keys.len() as int);
        if 0 <= k < keys.len() {
            assert(placeholder(keys[k]).len() == keys[k].len() + 2);
            lemma_render_prefix(a, b, keys, values, i + keys[k].len() + 2);
            assert(rendered_from(t, keys, values, i) =~= rendered_from(a, keys, values, i) + rendered_from(
                t,
                keys,
                values,
                a.len() as int,
            ));
        } else {
            lemma_render_prefix(a, b, keys, values, i + 1);
            assert(t[i] == a[i]);
            assert(rendered_from(t, keys, values, i) =~= rendered_from(a, keys, values, i) + rendered_from(
                t,
                keys,
                values,
                a.len() as int,
            ));
        }
    } else {
        assert(rendered_from(a, keys, values, i) =~= Seq::<char>::empty());
        assert(rendered_from(t, keys, values, i) =~= Seq::<char>::empty() + rendered_from(t, keys, values, i));
    }
}

/// A stretch without an opening brace is rendered as it is.
proof fn lemma_render_plain(t: Seq<char>, keys: Seq<Seq<char>>, values: Seq<Seq<char>>, i: int, j: int)
    requires
        0 <= i <= j <= t.len(),
        forall|x: int| i <= x < j ==> #[trigger] t[x] != '{',
    ensures
        rendered_from(t, keys, values, i) == t.subrange(i, j) + rendered_from(t, keys, values, j),
    decreases j - i,
{
    if i < j {
        lemma_key_hit_occurs(t, keys, i, keys.len() as int);
        let k = key_hit(t, keys, i, keys.len() as int);
        if 0 <= k < keys.len() {
            let p = placeholder(keys[k]);
            assert(t.subrange(i, i + p.len())[0] == t[i]);
            assert(p[0] == '{');
            assert(t[i] != '{');
        }
        lemma_render_plain(t, keys, values, i + 1, j);
        assert(t.subrange(i, j) =~= seq![t[i]] + t.subrange(i + 1, j));
        assert(rendered_from(t, keys, values, i) =~= t.subrange(i, j) + rendered_from(t, keys, values, j));
    } else {
        assert(t.subrange(i, j) =~= Seq::<char>::empty());
        assert(rendered_from(t, keys, values, i) =~= t.subrange(i, j) + rendered_from(t, keys, values, j));
    }
}

/// Of two brace-free names whose placeholders stand at the same place,
/// each equals the other.
proof fn lemma_one_name_per_place(t: Seq<char>, x: Seq<char>, y: Seq<char>, i: int)
    requires
        brace_free(x),
        brace_free(y),
        occurs_at(t, placeholder(x), i),
        occurs_at(t, placeholder(y), i),
    ensures
        x == y,
{
    let px = placeholder(x);
    let py = placeholder(y);
    let sx = t.subrange(i, i + px.len());
    let sy = t.subrange(i, i + py.len());
    let lx = x.len() as int;
    let ly = y.len() as int;
    if lx < ly {
        assert(sx[lx + 1] == t[i + lx + 1]);
        assert(sy[lx + 1] == t[i + lx + 1]);
        assert(px[lx + 1] == '}');
        assert(py[lx + 1] == y[lx]);
    } else if ly < lx {
        assert(sx[ly + 1] == t[i + ly + 1]);
        assert(sy[ly + 1] == t[i + ly + 1]);
        assert(py[ly + 1] == '}');
        assert(px[ly + 1] == x[ly]);
    } else {
        assert forall|j: int| 0 <= j < x.len() implies x[j] == y[j] by {
            assert(sx[j + 1] == t[i + j + 1]);
            assert(sy[j + 1] == t[i + j + 1]);
            assert(px[j + 1] == x[j]);
            assert(py[j + 1] == y[j]);
        }
        assert(x =~= y);
    }
}

/// Rendering replaces every placeholder of a key by the key's value: a
/// template made of a first part, the placeholder of a key and a last
/// part is rendered as the first part rendered, the key's value, and the
/// last part rendered. This holds of keys in which no brace stands.
pub proof fn lemma_render_replaces(
    a: Seq<char>,
    b: Seq<char>,
    keys: Seq<Seq<char>>,
    values: Seq<Seq<char>>,
    k: int,
)
    requires
        keys.no_duplicates(),
        keys_brace_free(keys),
        keys.len() == values.len(),
        0 <= k < keys.len(),
    ensures
        rendered(a + placeholder(keys[k]) + b, keys, values) == rendered(a, keys, values) + values[k]
            + rendered(b, keys, values),
{
    let p = placeholder(keys[k]);
    let n = keys.len() as int;
    let rest = p + b;
    assert(a + p + b =~= a + rest);
    assert(rest[0] == '{');
    lemma_render_prefix(a, rest, keys, values, 0);
    lemma_render_shift(a, rest, keys, values, 0);
    // at the start of `rest` the key `k` is hit, and no other
    assert(occurs_at(rest, p, 0)) by {
        assert(rest.subrange(0, p.len() as int) =~= p);
    }
    lemma_key_hit_occurs(rest, keys, 0, n);
    let h = key_hit(rest, keys, 0, n);
    if h < n {
        lemma_one_name_per_place(rest, keys[h], keys[k], 0);
    } else {
        assert(!occurs_at(rest, placeholder(keys[k]), 0));
    }
    assert(h == k);
    lemma_render_shift(p, b, keys, values, 0);
    assert(p.len() == keys[k].len() + 2);
    assert(rendered_from(rest, keys, values, 0) == values[k] + rendered_from(rest, keys, values, p.len() as int));
    assert(rendered(a + rest, keys, values) =~= rendered(a, keys, values) + values[k] + rendered(
        b,
        keys,
        values,
    ));
}

/// Rendering keeps every placeholder of a name that is no key: a
/// template made of a first part, the placeholder of such a name and a
/// last part is rendered as the first part rendered, the placeholder as
/// it stands, and the last part rendered. This holds of keys and names
/// in which no brace stands.
pub proof fn lemma_render_keeps(
    a: Seq<char>,
    b: Seq<char>,
    keys: Seq<Seq<char>>,
    values: Seq<Seq<char>>,
    name: Seq<char>,
)
    requires
        keys_brace_free(keys),
        brace_free(name),
        !keys.contains(name),
    ensures
        rendered(a + placeholder(name) + b, keys, values) == rendered(a, keys, values) + placeholder(name)
            + rendered(b, keys, values),
{
    let p = placeholder(name);
    let n = keys.len() as int;
    let rest = p + b;
    assert(a + p + b =~= a + rest);
    assert(rest[0] == '{');
    lemma_render_prefix(a, rest, keys, values, 0);
    lemma_render_shift(a, rest, keys, values, 0);
    assert(occurs_at(rest, p, 0)) by {
        assert(rest.subrange(0, p.len() as int) =~= p);
    }
    lemma_key_hit_occurs(rest, keys, 0, n);
    let h = key_hit(rest, keys, 0, n);
    if h < n {
        lemma_one_name_per_place(rest, keys[h], name, 0);
        assert(keys.contains(keys[h]));
    }
    assert forall|x: int| 1 <= x < p.len() implies #[trigger] rest[x] != '{' by {
        assert(rest[x] == p[x]);
        if x < p.len() - 1 {
            assert(p[x] == name[x - 1]);
        }
    }
    lemma_render_plain(rest, keys, values, 1, p.len() as int);
    lemma_render_shift(p, b, keys, values, 0);
    assert(rest.subrange(1, p.len() as int) =~= p.subrange(1, p.len() as int));
    assert(seq![rest[0]] + p.subrange(1, p.len() as int) =~= p);
    assert(rendered_from(rest, keys, values, 0) =~= p + rendered(b, keys, values));
    assert(rendered(a + rest, keys, values) =~= rendered(a, keys, values) + p + rendered(b, keys, values));
}

/// A template without an opening brace is rendered as it is.
pub proof fn lemma_render_without_placeholders(t: Seq<char>, keys: Seq<Seq<char>>, values: Seq<Seq<char>>)
    requires
        forall|x: int| 0 <= x < t.len() ==> #[trigger] t[x] != '{',
    ensures
        rendered(t, keys, values) == t,
{
    lemma_render_plain(t, keys, values, 0, t.len() as int);
    assert(t.subrange(0, t.len() as int) =~= t);
    assert(t + rendered_from(t, keys, values, t.len() as int) =~= t);
}

/// The semantic commands of one task.
#[derive(Debug)]
pub struct TaskCommands {
    pub commands: Vec<SemanticCommand>,
}

impl TaskCommands {
    /// The index of the first command with the label `label`, or the
    /// number of commands where none has it.
    pub open spec fn index_of_label(&self, label: Seq<char>, n: int) -> int
        decreases n,
    {
        if n <= 0 {
            0
        } else {
            let before = self.index_of_label(label, n - 1);
            if before < n - 1 {
                before
            } else if self.commands@[n - 1].label@ == label {
                n - 1
            } else {
                n
            }
        }
    }

    /// One command for each entry of `map`, in the map's order: the key is
    /// the label, the value the template.
    pub fn from_map(map: &StrMap<String>) -> (cmds: Self)
        requires
            map.wf(),
        ensures
            cmds.commands@.len() == map.keys().len(),
            forall|i: int|
                0 <= i < map.keys().len() ==> {
                    &&& (#[trigger] cmds.commands@[i]).label@ == map.keys()[i]
                    &&& cmds.commands@[i].template@ == map.values()[i]@
                    &&& cmds.commands@[i].params.deep_view() == param_names(map.values()[i]@)
                },
    {
        let mut commands: Vec<SemanticCommand> = Vec::new();
        let n = map.len();
        let mut i: usize = 0;
        while i < n
            invariant
                map.wf(),
                n == map.keys().len(),
                i <= n,
                commands@.len() == i,
                forall|j: int|
                    0 <= j < i ==> {
                        &&& (#[trigger] commands@[j]).label@ == map.keys()[j]
                        &&& commands@[j].template@ == map.values()[j]@
                        &&& commands@[j].params.deep_view() == param_names(map.values()[j]@)
                    },
            decreases n - i,
        {
            commands.push(SemanticCommand::new(map.key_at(i).as_str(), map.value_at(i).as_str()));
            i += 1;
        }
        TaskCommands { commands }
    }

    /// The first command with the label `label`, if there is one.
    pub fn get(&self, label: &str) -> (r: Option<&SemanticCommand>)
        ensures
            match r {
                Some(cmd) => {
                    let at = self.index_of_label(label@, self.commands@.len() as int);
                    at < self.commands@.len() && *cmd == self.commands@[at]
                },
                None => self.index_of_label(label@, self.commands@.len() as int)
                    == self.commands@.len(),
            },
            r is Some <==> exists|i: int|
                0 <= i < self.commands@.len() && (#[trigger] self.commands@[i]).label@ == label@,
    {
        let mut i: usize = 0;
        while i < self.commands.len()
            invariant
                i <= self.commands@.len(),
                self.index_of_label(label@, i as int) == i,
                forall|j: int| 0 <= j < i ==> (#[trigger] self.commands@[j]).label@ != label@,
            decreases self.commands@.len() - i,
        {
            if str_eq(self.commands[i].label.as_str(), label) {
                proof {
                    self.lemma_label_found(label@, i as int + 1, self.commands@.len() as int);
                }
                return Some(&self.commands[i]);
            }
            i += 1;
        }
        None
    }

    /// The index of a label is that of a command with the label, and no
    /// command before it has the label.
    pub proof fn lemma_index_of_label(&self, label: Seq<char>, n: int)
        requires
            0 <= n <= self.commands@.len(),
        ensures
            0 <= self.index_of_label(label, n) <= n,
            self.index_of_label(label, n) < n ==> self.commands@[self.index_of_label(label, n)].label@
                == label,
            forall|j: int|
                0 <= j < self.index_of_label(label, n) ==> (#[trigger] self.commands@[j]).label@ != label,
        decreases n,
    {
        if n > 0 {
            self.lemma_index_of_label(label, n - 1);
        }
    }

    proof fn lemma_label_found(&self, label: Seq<char>, k: int, n: int)
        requires
            0 <= k <= n,
            self.index_of_label(label, k) < k,
        ensures
            self.index_of_label(label, n) == self.index_of_label(label, k),
        decreases n - k,
    {
        if k < n {
            self.lemma_label_found(label, k, n - 1);
        }
    }

    /// The labels of all commands, in order.
    pub fn labels(&self) -> (names: Vec<String>)
        ensures
            names@.len() == self.commands@.len(),
            forall|i: int| 0 <= i < names@.len() ==> (#[trigger] names@[i])@ == self.commands@[i].label@,
    {
        let mut names: Vec<String> = Vec::new();
        let mut i: usize = 0;
        while i < self.commands.len()
            invariant
                i <= self.commands@.len(),
                names@.len() == i,
                forall|j: int| 0 <= j < i ==> (#[trigger] names@[j])@ == self.commands@[j].label@,
            decreases self.commands@.len() - i,
        {
            names.push(self.commands[i].label.clone());
            i += 1;
        }
        names
    }

    /// Whether there is no command.
    pub fn is_empty(&self) -> (b: bool)
        ensures
            b == (self.commands@.len() == 0),
    {
        self.commands.len() == 0
    }
}

} // verus!
