use vstd::prelude::*;
use vstd::string::*;

verus! {

/// A path relative to the output's source directory, one component per entry.
pub type RelPath = Vec<String>;

/// The view of a relative path: the characters of each component.
pub open spec fn path_view(p: Vec<String>) -> Seq<Seq<char>> {
    p@.map_values(|s: String| s@)
}

/// Control characters: the general category Cc, U+0000..U+001F and U+007F..U+009F.
pub open spec fn is_control_spec(c: char) -> bool {
    (c as u32) <= 0x1f || (0x7f <= (c as u32) && (c as u32) <= 0x9f)
}

/// Characters that no file name may hold.
pub open spec fn is_forbidden_spec(c: char) -> bool {
    c == '<' || c == '>' || c == ':' || c == '"' || c == '/' || c == '\\' || c == '|' || c == '?'
        || c == '*' || is_control_spec(c)
}

pub open spec fn replace_forbidden(c: char) -> char {
    if is_forbidden_spec(c) {
        '_'
    } else {
        c
    }
}

/// Drops every trailing space and dot.
pub open spec fn strip_trailing(s: Seq<char>) -> Seq<char>
    decreases s.len(),
{
    if s.len() > 0 && (s.last() == ' ' || s.last() == '.') {
        strip_trailing(s.drop_last())
    } else {
        s
    }
}

/// `c` is the ASCII letter `lower`, in either case.
pub open spec fn ci(c: char, lower: char) -> bool {
    c == lower || (c as u32) + 32 == (lower as u32)
}

pub open spec fn starts_ci(s: Seq<char>, a: char, b: char, c: char) -> bool {
    s.len() >= 3 && ci(s[0], a) && ci(s[1], b) && ci(s[2], c)
}

/// A device name that some file systems reserve, compared without regard to ASCII case:
/// `con`, `prn`, `aux`, `nul`, `com1`..`com9`, `lpt1`..`lpt9`.
pub open spec fn is_reserved_spec(s: Seq<char>) -> bool {
    (s.len() == 3 && (starts_ci(s, 'c', 'o', 'n') || starts_ci(s, 'p', 'r', 'n') || starts_ci(
        s,
        'a',
        'u',
        'x',
    ) || starts_ci(s, 'n', 'u', 'l'))) || (s.len() == 4 && (starts_ci(s, 'c', 'o', 'm')
        || starts_ci(s, 'l', 'p', 't')) && '1' <= s[3] && s[3] <= '9')
}

/// The safe path component for a node name.
pub open spec fn sanitize(name: Seq<char>) -> Seq<char> {
    let t = strip_trailing(name.map_values(|c: char| replace_forbidden(c)));
    let u = if t.len() == 0 {
        seq!['_']
    } else {
        t
    };
    if is_reserved_spec(u) {
        seq!['_'] + u
    } else {
        u
    }
}

/// Relies on std's `String: FromIterator<char>`: the string holds the characters in order.
#[verifier::external_body]
pub(crate) fn string_from_chars(v: &Vec<char>) -> (r: String)
    ensures
        r@ == v@,
{
    v.iter().collect()
}

/// The characters of a string, in order.
pub fn chars_of(s: &str) -> (r: Vec<char>)
    ensures
        r@ == s@,
{
    let n = s.unicode_len();
    let mut v: Vec<char> = Vec::new();
    let mut i: usize = 0;
    while i < n
        invariant
            n == s@.len(),
            i <= n,
            v@ == s@.subrange(0, i as int),
        decreases n - i,
    {
        let c = s.get_char(i);
        v.push(c);
        i += 1;
        assert(v@ =~= s@.subrange(0, i as int));
    }
    assert(v@ =~= s@);
    v
}

fn is_forbidden_char(c: char) -> (r: bool)
    ensures
        r == is_forbidden_spec(c),
{
    c == '<' || c == '>' || c == ':' || c == '"' || c == '/' || c == '\\' || c == '|' || c == '?'
        || c == '*' || (c as u32) <= 0x1f || (0x7f <= (c as u32) && (c as u32) <= 0x9f)
}

fn ci_exec(c: char, lower: char) -> (r: bool)
    requires
        'a' <= lower <= 'z',
    ensures
        r == ci(c, lower),
{
    c == lower || (c as u32) + 32 == (lower as u32)
}

fn starts_ci_exec(s: &Vec<char>, a: char, b: char, c: char) -> (r: bool)
    requires
        'a' <= a <= 'z',
        'a' <= b <= 'z',
        'a' <= c <= 'z',
    ensures
        r == starts_ci(s@, a, b, c),
{
    s.len() >= 3 && ci_exec(s[0], a) && ci_exec(s[1], b) && ci_exec(s[2], c)
}

fn is_reserved(s: &Vec<char>) -> (r: bool)
    ensures
        r == is_reserved_spec(s@),
{
    if s.len() == 3 {
        starts_ci_exec(s, 'c', 'o', 'n') || starts_ci_exec(s, 'p', 'r', 'n') || starts_ci_exec(
            s,
            'a',
            'u',
            'x',
        ) || starts_ci_exec(s, 'n', 'u', 'l')
    } else if s.len() == 4 {
        (starts_ci_exec(s, 'c', 'o', 'm') || starts_ci_exec(s, 'l', 'p', 't')) && '1' <= s[3]
            && s[3] <= '9'
    } else {
        false
    }
}

/// The sanitized characters of `name`.
pub fn sanitize_chars(name: &Vec<char>) -> (r: Vec<char>)
    ensures
        r@ == sanitize(name@),
{
    let n = name.len();
    let mut v: Vec<char> = Vec::new();
    let mut i: usize = 0;
    while i < n
        invariant
            n == name@.len(),
            i <= n,
            v@ == name@.subrange(0, i as int).map_values(|c: char| replace_forbidden(c)),
        decreases n - i,
    {
        let c = name[i];
        if is_forbidden_char(c) {
            v.push('_');
        } else {
            v.push(c);
        }
        i += 1;
        assert(v@ =~= name@.subrange(0, i as int).map_values(|c: char| replace_forbidden(c)));
    }
    assert(name@.subrange(0, n as int) =~= name@);
    let ghost mapped = v@;
    while v.len() > 0 && (v[v.len() - 1] == ' ' || v[v.len() - 1] == '.')
        invariant
            strip_trailing(v@) == strip_trailing(mapped),
        decreases v.len(),
    {
        assert(v@.drop_last() =~= v@.subrange(0, v@.len() - 1));
        v.pop();
    }
    if v.len() == 0 {
        v.push('_');
        assert(v@ =~= seq!['_']);
    }
    if is_reserved(&v) {
        v.insert(0, '_');
        assert(v@ =~= seq!['_'] + v@.subrange(1, v@.len() as int));
    }
    v
}

/// Turns an arbitrary node name into a safe path component.
pub fn sanitize_component(name: &str) -> (r: String)
    ensures
        r@ == sanitize(name@),
{
    let chars = chars_of(name);
    let v = sanitize_chars(&chars);
    string_from_chars(&v)
}

/// A copy of a relative path.
pub fn copy_path(p: &RelPath) -> (r: RelPath)
    ensures
        path_view(r) == path_view(*p),
{
    let mut r: RelPath = Vec::new();
    let mut i: usize = 0;
    while i < p.len()
        invariant
            i <= p.len(),
            path_view(r) == path_view(*p).subrange(0, i as int),
        decreases p.len() - i,
    {
        let s = p[i].clone();
        assert(s@ == path_view(*p)[i as int]);
        let ghost prev = r@;
        r.push(s);
        assert(r@ == prev.push(s));
        assert(path_view(r) =~= path_view(*p).subrange(0, i as int).push(s@));
        i += 1;
        assert(path_view(r) =~= path_view(*p).subrange(0, i as int));
    }
    assert(path_view(*p).subrange(0, i as int) =~= path_view(*p));
    r
}

/// `base` followed by one more component, taken as it is.
pub fn join_raw(base: &RelPath, component: String) -> (r: RelPath)
    ensures
        path_view(r) == path_view(*base).push(component@),
{
    let mut r = copy_path(base);
    r.push(component);
    assert(path_view(r) =~= path_view(*base).push(component@));
    r
}

/// `base` followed by the sanitized form of `name`.
pub fn sanitized_join(base: &RelPath, name: &str) -> (r: RelPath)
    ensures
        path_view(r) == path_view(*base).push(sanitize(name@)),
{
    join_raw(base, sanitize_component(name))
}

} // verus!
