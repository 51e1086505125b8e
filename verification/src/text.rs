//! Small text utilities shared by the parser, the resolver and the renderer.
use vstd::prelude::*;

verus! {

/// `String::push` appends one character to the end of the string.
pub assume_specification[ std::string::String::push ](s: &mut std::string::String, ch: char)
    ensures
        final(s)@ == old(s)@.push(ch),
;

/// The views of a sequence of strings.
pub open spec fn texts(names: Seq<String>) -> Seq<Seq<char>> {
    names.map_values(|s: String| s@)
}

/// The views of a sequence of pairs of strings.
pub open spec fn pair_texts(pairs: Seq<(String, String)>) -> Seq<(Seq<char>, Seq<char>)> {
    pairs.map_values(|e: (String, String)| (e.0@, e.1@))
}

/// The views of a list of strings with one more at its end.
pub proof fn lemma_texts_push(names: Seq<String>, name: String)
    ensures
        texts(names.push(name)) == texts(names).push(name@),
{
    assert(texts(names.push(name)) =~= texts(names).push(name@));
}

/// What a sequence with one more element holds.
pub proof fn lemma_push_contains<A>(s: Seq<A>, x: A)
    ensures
        forall|y: A| #[trigger] s.push(x).contains(y) == (s.contains(y) || y == x),
        s.push(x).to_set() == s.to_set().insert(x),
        s.no_duplicates() && !s.contains(x) ==> s.push(x).no_duplicates(),
{
    assert forall|y: A| s.push(x).contains(y) == (s.contains(y) || y == x) by {
        if s.contains(y) {
            let k = choose|k: int| 0 <= k < s.len() && s[k] == y;
            assert(s.push(x)[k] == y);
        }
        if y == x {
            assert(s.push(x)[s.len() as int] == y);
        }
        if s.push(x).contains(y) {
            let k = choose|k: int| 0 <= k < s.push(x).len() && s.push(x)[k] == y;
            if k < s.len() {
                assert(s[k] == y);
            }
        }
    }
    assert forall|y: A| s.push(x).to_set().contains(y) == s.to_set().insert(x).contains(y) by {
        assert(s.push(x).to_set().contains(y) == s.push(x).contains(y));
        assert(s.to_set().contains(y) == s.contains(y));
    }
    assert(s.push(x).to_set() =~= s.to_set().insert(x));
    if s.no_duplicates() && !s.contains(x) {
        assert forall|i: int, j: int|
            0 <= i < s.push(x).len() && 0 <= j < s.push(x).len() && i != j implies s.push(x)[i]
            != s.push(x)[j] by {
            if i < s.len() {
                assert(s[i] == s.push(x)[i]);
            }
            if j < s.len() {
                assert(s[j] == s.push(x)[j]);
            }
        }
    }
}

/// Whether `names` holds `name`.
pub fn contains_name(names: &Vec<String>, name: &String) -> (b: bool)
    ensures
        b == texts(names@).contains(name@),
{
    let mut i: usize = 0;
    while i < names.len()
        invariant
            i <= names.len(),
            forall|k: int| 0 <= k < i ==> texts(names@)[k] != name@,
        decreases names.len() - i,
    {
        if names[i] == *name {
            assert(texts(names@)[i as int] == name@);
            return true;
        }
        i += 1;
    }
    false
}

/// The decimal digit for `d`, which is below ten.
pub open spec fn digit_char(d: nat) -> char {
    if d == 0 {
        '0'
    } else if d == 1 {
        '1'
    } else if d == 2 {
        '2'
    } else if d == 3 {
        '3'
    } else if d == 4 {
        '4'
    } else if d == 5 {
        '5'
    } else if d == 6 {
        '6'
    } else if d == 7 {
        '7'
    } else if d == 8 {
        '8'
    } else {
        '9'
    }
}

/// The decimal notation of `n`, without leading zeros.
pub open spec fn decimal(n: nat) -> Seq<char>
    decreases n,
{
    if n < 10 {
        seq![digit_char(n)]
    } else {
        decimal(n / 10).push(digit_char(n % 10))
    }
}

fn digit(d: usize) -> (c: char)
    requires
        d < 10,
    ensures
        c == digit_char(d as nat),
{
    if d == 0 {
        '0'
    } else if d == 1 {
        '1'
    } else if d == 2 {
        '2'
    } else if d == 3 {
        '3'
    } else if d == 4 {
        '4'
    } else if d == 5 {
        '5'
    } else if d == 6 {
        '6'
    } else if d == 7 {
        '7'
    } else if d == 8 {
        '8'
    } else {
        '9'
    }
}

/// Appends the decimal notation of `n` to `out`.
pub fn push_decimal(out: &mut String, n: usize)
    ensures
        final(out)@ == old(out)@ + decimal(n as nat),
    decreases n,
{
    if n < 10 {
        out.push(digit(n));
        assert(out@ =~= old(out)@ + decimal(n as nat));
    } else {
        push_decimal(out, n / 10);
        out.push(digit(n % 10));
        assert(out@ =~= old(out)@ + decimal(n as nat));
    }
}

/// The characters of `s` from index `from` up to, not including, `to`.
pub fn string_of(s: &Vec<char>, from: usize, to: usize) -> (r: String)
    requires
        from <= to <= s.len(),
    ensures
        r@ == s@.subrange(from as int, to as int),
{
    let mut r = String::new();
    let mut i: usize = from;
    while i < to
        invariant
            from <= i <= to <= s.len(),
            r@ == s@.subrange(from as int, i as int),
        decreases to - i,
    {
        r.push(s[i]);
        i += 1;
        assert(r@ =~= s@.subrange(from as int, i as int));
    }
    r
}

/// The characters of `s`, in order.
pub fn chars_of(s: &str) -> (v: Vec<char>)
    ensures
        v@ == s@,
{
    let mut v: Vec<char> = Vec::new();
    for c in it: s.chars()
        invariant
            it.seq() == s@,
            v@ == it.seq().take(it.index()),
    {
        v.push(c);
        assert(v@ =~= it.seq().take(it.index() + 1));
    }
    assert(v@ =~= s@);
    v
}

/// Whether `path`, which is not empty, ends in what is no part of a name: a
/// `/`, or a component that is a single `.`.
pub open spec fn ends_without_name(path: Seq<char>) -> bool {
    path.last() == '/' || (path.last() == '.' && (path.len() == 1 || path[path.len() - 2] == '/'))
}

/// Where the last component of `path` ends that is neither empty nor a
/// single `.`; 0 when `path` has no such component. Components stand
/// between `/`.
pub open spec fn name_end(path: Seq<char>) -> int
    decreases path.len(),
{
    if path.len() == 0 {
        0
    } else if ends_without_name(path) {
        name_end(path.drop_last())
    } else {
        path.len() as int
    }
}

/// Where the last component of `path` starts: just after its last `/`, or at
/// 0 when it has none.
pub open spec fn file_name_start(path: Seq<char>) -> int
    decreases path.len(),
{
    if path.len() == 0 {
        0
    } else if path.last() == '/' {
        path.len() as int
    } else {
        file_name_start(path.drop_last())
    }
}

/// The file name of `path`: its last component that is neither empty nor a
/// single `.`, so that `/` and `/.` at the end of a path do not count. Empty
/// when `path` has no such component.
pub open spec fn file_name(path: Seq<char>) -> Seq<char> {
    path.subrange(file_name_start(path.take(name_end(path))), name_end(path))
}

/// Whether `path` names a file or directory: it has a file name, and that is
/// not `..`. The empty path, `/`, `.` and `a/..` name none; `a/b`, `a/b/` and
/// `a/b/.` name `b`.
pub open spec fn has_file_name(path: Seq<char>) -> bool {
    name_end(path) > 0 && file_name(path) != seq!['.', '.']
}

/// The last component starts within the path, holds no `/`, and is preceded
/// by one unless it starts the path.
pub proof fn lemma_file_name_start(path: Seq<char>)
    ensures
        0 <= file_name_start(path) <= path.len(),
        forall|i: int| file_name_start(path) <= i < path.len() ==> path[i] != '/',
        file_name_start(path) > 0 ==> path[file_name_start(path) - 1] == '/',
    decreases path.len(),
{
    if path.len() > 0 && path.last() != '/' {
        let init = path.drop_last();
        lemma_file_name_start(init);
        assert forall|i: int| file_name_start(path) <= i < path.len() implies path[i] != '/' by {
            if i < init.len() {
                assert(init[i] == path[i]);
            }
        }
        if file_name_start(path) > 0 {
            assert(init[file_name_start(path) - 1] == path[file_name_start(path) - 1]);
        }
    }
}

/// After the file name stand only `/` and `.`; the file name does not end in
/// a `/`, and is not a single `.`.
pub proof fn lemma_name_end(path: Seq<char>)
    ensures
        0 <= name_end(path) <= path.len(),
        forall|i: int| name_end(path) <= i < path.len() ==> path[i] == '/' || path[i] == '.',
        name_end(path) > 0 ==> !ends_without_name(path.take(name_end(path))),
    decreases path.len(),
{
    if path.len() > 0 {
        if ends_without_name(path) {
            let init = path.drop_last();
            lemma_name_end(init);
            assert forall|i: int| name_end(path) <= i < path.len() implies path[i] == '/' || path[i]
                == '.' by {
                if i < init.len() {
                    assert(init[i] == path[i]);
                }
            }
            assert(init.take(name_end(path)) =~= path.take(name_end(path)));
        } else {
            assert(path.take(path.len() as int) =~= path);
        }
    }
}

/// The file name of a path that has one is not empty, holds no `/`, and is
/// neither `.` nor `..`.
pub proof fn lemma_file_name(path: Seq<char>)
    requires
        has_file_name(path),
    ensures
        file_name(path).len() > 0,
        forall|i: int| 0 <= i < file_name(path).len() ==> file_name(path)[i] != '/',
        file_name(path) != seq!['.'],
        file_name(path) != seq!['.', '.'],
{
    let end = name_end(path);
    let head = path.take(end);
    lemma_name_end(path);
    lemma_file_name_start(head);
    let start = file_name_start(head);
    assert(head.last() == path[end - 1]);
    assert(head.last() != '/');
    if start == end {
        assert(head[start - 1] == '/');
    }
    assert forall|i: int| 0 <= i < file_name(path).len() implies file_name(path)[i] != '/' by {
        assert(file_name(path)[i] == head[start + i]);
    }
    if file_name(path) == seq!['.'] {
        assert(file_name(path).len() == 1);
        assert(file_name(path)[0] == '.');
        assert(start == end - 1);
        if start > 0 {
            assert(head[head.len() - 2] == '/');
        }
        assert(ends_without_name(head));
    }
}

/// Whether the first `end` characters of `chars` end in what is no part of
/// a name.
fn prefix_ends_without_name(chars: &Vec<char>, end: usize) -> (b: bool)
    requires
        0 < end <= chars.len(),
    ensures
        b == ends_without_name(chars@.take(end as int)),
{
    let last = chars[end - 1];
    last == '/' || (last == '.' && (end == 1 || chars[end - 2] == '/'))
}

/// The file name of `path`, as a string of its own, where `path` names a
/// file or directory.
pub fn file_name_of(path: &str) -> (name: Option<String>)
    ensures
        match name {
            Some(text) => has_file_name(path@) && text@ == file_name(path@),
            None => !has_file_name(path@),
        },
{
    let chars = chars_of(path);
    let mut end: usize = chars.len();
    assert(chars@.take(end as int) =~= chars@);
    while end > 0 && prefix_ends_without_name(&chars, end)
        invariant
            end <= chars.len(),
            name_end(chars@) == name_end(chars@.take(end as int)),
        decreases end,
    {
        assert(chars@.take(end as int).drop_last() =~= chars@.take(end - 1));
        end -= 1;
    }
    if end == 0 {
        assert(chars@.take(0).len() == 0);
        return None;
    }
    let ghost head = chars@.take(end as int);
    let mut start: usize = 0;
    let mut i: usize = 0;
    assert(head.take(0).len() == 0);
    while i < end
        invariant
            i <= end <= chars.len(),
            head == chars@.take(end as int),
            start as int == file_name_start(head.take(i as int)),
            start <= i,
        decreases end - i,
    {
        assert(head.take(i + 1).drop_last() =~= head.take(i as int));
        if chars[i] == '/' {
            start = i + 1;
        }
        i += 1;
    }
    assert(head.take(end as int) =~= head);
    assert(name_end(chars@) == end);
    let ghost name = chars@.subrange(start as int, end as int);
    if end - start == 2 && chars[start] == '.' && chars[start + 1] == '.' {
        assert(name =~= seq!['.', '.']);
        return None;
    }
    proof {
        if name == seq!['.', '.'] {
            assert(name.len() == 2);
            assert(name[0] == '.' && name[1] == '.');
        }
    }
    Some(string_of(&chars, start, end))
}

} // verus!
