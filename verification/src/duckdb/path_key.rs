//! Keys for leaf columns: the names on the path to a leaf, quoted and joined by dots.

use vstd::prelude::*;

use crate::text::push_char;

verus! {

/// One step of a path into a nested type.
#[derive(Debug, PartialEq)]
pub enum PathField {
    /// A named field of a struct.
    Name(String),
    /// The element of a list.
    ElementType,
}

/// What a [`PathField`] stands for.
pub enum PathModel {
    Name(Seq<char>),
    ElementType,
}

impl View for PathField {
    type V = PathModel;

    open spec fn view(&self) -> PathModel {
        match *self {
            PathField::Name(name) => PathModel::Name(name@),
            PathField::ElementType => PathModel::ElementType,
        }
    }
}

impl PathModel {
    /// The step's name in a key.
    pub open spec fn text(self) -> Seq<char> {
        match self {
            PathModel::Name(name) => name,
            PathModel::ElementType => "element"@,
        }
    }
}

/// The steps of a path.
pub open spec fn path_model(path: Seq<PathField>) -> Seq<PathModel> {
    path.map_values(|f: PathField| f@)
}

/// A copy of a path.
pub fn copy_path(path: &[PathField]) -> (r: Vec<PathField>)
    ensures
        path_model(r@) == path_model(path@),
{
    let mut out: Vec<PathField> = Vec::new();
    for i in 0..path.len()
        invariant
            path_model(out@) == path_model(path@).take(i as int),
    {
        let step = match &path[i] {
            PathField::Name(name) => PathField::Name(name.clone()),
            PathField::ElementType => PathField::ElementType,
        };
        let ghost before = out@;
        out.push(step);
        assert(path_model(out@) =~= path_model(before).push(step@));
        assert(step@ == path@[i as int]@);
        assert(path_model(out@) =~= path_model(path@).take(i + 1));
    }
    assert(path_model(out@) =~= path_model(path@));
    out
}

/// A name with each double quote doubled.
pub open spec fn doubled(name: Seq<char>) -> Seq<char>
    decreases name.len(),
{
    if name.len() == 0 {
        seq![]
    } else {
        (if name[0] == '"' {
            seq!['"', '"']
        } else {
            seq![name[0]]
        }) + doubled(name.skip(1))
    }
}

/// A name in double quotes.
pub open spec fn quoted(name: Seq<char>) -> Seq<char> {
    seq!['"'] + doubled(name) + seq!['"']
}

/// The names, each in double quotes, joined by dots.
pub open spec fn joined_key(names: Seq<Seq<char>>) -> Seq<char>
    decreases names.len(),
{
    if names.len() == 0 {
        seq![]
    } else if names.len() == 1 {
        quoted(names[0])
    } else {
        quoted(names[0]) + seq!['.'] + joined_key(names.skip(1))
    }
}

/// The names along a path.
pub open spec fn path_names(path: Seq<PathModel>) -> Seq<Seq<char>> {
    path.map_values(|f: PathModel| f.text())
}

/// The key of a path.
pub open spec fn leaf_key(path: Seq<PathModel>) -> Seq<char> {
    joined_key(path_names(path))
}

proof fn lemma_doubled_push(name: Seq<char>, c: char)
    ensures
        doubled(name.push(c)) == doubled(name) + (if c == '"' {
            seq!['"', '"']
        } else {
            seq![c]
        }),
    decreases name.len(),
{
    if name.len() > 0 {
        lemma_doubled_push(name.skip(1), c);
        assert(name.push(c).skip(1) =~= name.skip(1).push(c));
        assert(doubled(name.push(c)) =~= doubled(name) + (if c == '"' {
            seq!['"', '"']
        } else {
            seq![c]
        }));
    } else {
        assert(name.push(c).skip(1) =~= Seq::<char>::empty());
        assert(doubled(Seq::<char>::empty()) =~= Seq::<char>::empty());
        assert(name.push(c)[0] == c);
        assert(doubled(name.push(c)) =~= (if c == '"' {
            seq!['"', '"']
        } else {
            seq![c]
        }));
        assert(doubled(name) =~= seq![]);
    }
}

fn push_quoted(out: &mut String, name: &str)
    ensures
        final(out)@ == old(out)@ + quoted(name@),
{
    push_char(out, '"');
    let n: usize = name.unicode_len();
    let mut i: usize = 0;
    let ghost start = out@;
    assert(name@.take(0) =~= seq![]);
    assert(start =~= start + doubled(name@.take(0)));
    while i < n
        invariant
            i <= n,
            n == name@.len(),
            out@ == start + doubled(name@.take(i as int)),
        decreases n - i,
    {
        let c = name.get_char(i);
        if c == '"' {
            push_char(out, '"');
        }
        push_char(out, c);
        proof {
            lemma_doubled_push(name@.take(i as int), c);
            assert(name@.take(i as int).push(c) =~= name@.take(i + 1));
            assert(out@ =~= start + doubled(name@.take(i + 1)));
        }
        i += 1;
    }
    assert(name@.take(n as int) =~= name@);
    push_char(out, '"');
    assert(out@ =~= old(out)@ + quoted(name@));
}

proof fn lemma_joined_push(names: Seq<Seq<char>>, name: Seq<char>)
    ensures
        joined_key(names.push(name)) == if names.len() == 0 {
            quoted(name)
        } else {
            joined_key(names) + seq!['.'] + quoted(name)
        },
    decreases names.len(),
{
    if names.len() > 0 {
        lemma_joined_push(names.skip(1), name);
        assert(names.push(name).skip(1) =~= names.skip(1).push(name));
        assert(joined_key(names.push(name)) =~= joined_key(names) + seq!['.'] + quoted(name));
    }
}

/// The key of a path: each name in double quotes (quotes inside doubled), joined by dots.
pub fn quoted_leaf_key(path: &[PathField]) -> (r: String)
    ensures
        r@ == leaf_key(path_model(path@)),
{
    let mut out = String::new();
    let ghost names = path_names(path_model(path@));
    for i in 0..path.len()
        invariant
            names == path_names(path_model(path@)),
            out@ == joined_key(names.take(i as int)),
    {
        if i > 0 {
            push_char(&mut out, '.');
        }
        match &path[i] {
            PathField::Name(name) => push_quoted(&mut out, name.as_str()),
            PathField::ElementType => push_quoted(&mut out, "element"),
        }
        proof {
            let name = names[i as int];
            assert(name == path@[i as int]@.text());
            lemma_joined_push(names.take(i as int), name);
            assert(names.take(i as int).push(name) =~= names.take(i + 1));
            assert(out@ =~= joined_key(names.take(i + 1)));
        }
    }
    assert(names.take(names.len() as int) =~= names);
    out
}

/// Whether text after a closing quote cannot be taken for a part of the name.
spec fn ends_name(rest: Seq<char>) -> bool {
    rest.len() == 0 || rest[0] != '"'
}

proof fn lemma_quote_closes(a: Seq<char>, ra: Seq<char>, b: Seq<char>, rb: Seq<char>)
    requires
        doubled(a) + seq!['"'] + ra == doubled(b) + seq!['"'] + rb,
        ends_name(ra),
        ends_name(rb),
    ensures
        a == b,
        ra == rb,
    decreases a.len(),
{
    let left = doubled(a) + seq!['"'] + ra;
    let right = doubled(b) + seq!['"'] + rb;
    if a.len() == 0 && b.len() == 0 {
        assert(ra =~= left.skip(1));
        assert(rb =~= right.skip(1));
        assert(a =~= b);
    } else if a.len() == 0 {
        assert(left[0] == '"');
        assert(right[0] == b[0]);
        assert(right[1] == '"');
        assert(left[1] == ra[0]);
    } else if b.len() == 0 {
        assert(right[0] == '"');
        assert(left[0] == a[0]);
        assert(left[1] == '"');
        assert(right[1] == rb[0]);
    } else {
        assert(left[0] == a[0] && right[0] == b[0]);
        let n: int = if a[0] == '"' { 2 } else { 1 };
        assert(left.skip(n) =~= doubled(a.skip(1)) + seq!['"'] + ra);
        assert(right.skip(n) =~= doubled(b.skip(1)) + seq!['"'] + rb);
        lemma_quote_closes(a.skip(1), ra, b.skip(1), rb);
        assert(a =~= seq![a[0]] + a.skip(1));
        assert(b =~= seq![b[0]] + b.skip(1));
    }
}

/// What follows the first name of a key.
spec fn key_tail(names: Seq<Seq<char>>) -> Seq<char> {
    if names.len() == 1 {
        seq![]
    } else {
        seq!['.'] + joined_key(names.skip(1))
    }
}

/// Two paths have the same key only if the names along them are the same.
pub proof fn law_leaf_key_identifies_names(a: Seq<Seq<char>>, b: Seq<Seq<char>>)
    ensures
        joined_key(a) == joined_key(b) <==> a == b,
    decreases a.len(),
{
    if joined_key(a) == joined_key(b) {
        if a.len() == 0 || b.len() == 0 {
            assert(a.len() > 0 ==> joined_key(a)[0] == '"');
            assert(b.len() > 0 ==> joined_key(b)[0] == '"');
            assert(a =~= b);
        } else {
            let ra = key_tail(a);
            let rb = key_tail(b);
            assert(joined_key(a) =~= seq!['"'] + (doubled(a[0]) + seq!['"'] + ra));
            assert(joined_key(b) =~= seq!['"'] + (doubled(b[0]) + seq!['"'] + rb));
            assert(joined_key(a).skip(1) =~= doubled(a[0]) + seq!['"'] + ra);
            assert(joined_key(b).skip(1) =~= doubled(b[0]) + seq!['"'] + rb);
            lemma_quote_closes(a[0], ra, b[0], rb);
            if a.len() > 1 {
                assert(ra[0] == '.');
            }
            if b.len() > 1 {
                assert(rb[0] == '.');
            }
            if a.len() > 1 && b.len() > 1 {
                assert(ra.skip(1) =~= joined_key(a.skip(1)));
                assert(rb.skip(1) =~= joined_key(b.skip(1)));
                law_leaf_key_identifies_names(a.skip(1), b.skip(1));
                assert(a =~= seq![a[0]] + a.skip(1));
                assert(b =~= seq![b[0]] + b.skip(1));
            } else {
                assert(a =~= b);
            }
        }
    }
}

/// Quoting works character by character: a double quote is doubled and any other character stays.
pub proof fn law_only_quotes_are_doubled(a: Seq<char>, b: Seq<char>, c: char)
    ensures
        doubled(Seq::empty()) == Seq::<char>::empty(),
        doubled(seq!['"']) == seq!['"', '"'],
        c != '"' ==> doubled(seq![c]) == seq![c],
        doubled(a + b) == doubled(a) + doubled(b),
    decreases b.len(),
{
    let none = Seq::<char>::empty();
    assert(doubled(none) =~= none);
    lemma_doubled_push(none, '"');
    lemma_doubled_push(none, c);
    assert(none.push('"') =~= seq!['"']);
    assert(none.push(c) =~= seq![c]);
    assert(doubled(seq!['"']) =~= seq!['"', '"']);
    if c != '"' {
        assert(doubled(seq![c]) =~= seq![c]);
    }
    if b.len() > 0 {
        law_only_quotes_are_doubled(a, b.drop_last(), c);
        lemma_doubled_push(a + b.drop_last(), b.last());
        lemma_doubled_push(b.drop_last(), b.last());
        assert((a + b.drop_last()).push(b.last()) =~= a + b);
        assert(b.drop_last().push(b.last()) =~= b);
        assert(doubled(a + b) =~= doubled(a) + doubled(b));
    } else {
        assert(a + b =~= a);
        assert(b =~= none);
        assert(doubled(a + b) =~= doubled(a) + doubled(b));
    }
}

/// A key is the names along the path in order, each between double quotes, with a dot between two
/// of them. The element of a list is named `element`.
pub proof fn law_key_joins_quoted_names(path: Seq<PathModel>, name: Seq<char>)
    ensures
        leaf_key(Seq::empty()) == Seq::<char>::empty(),
        leaf_key(seq![PathModel::Name(name)]) == seq!['"'] + doubled(name) + seq!['"'],
        path.len() > 0 ==> leaf_key(path.push(PathModel::Name(name))) == leaf_key(path) + seq![
            '.',
            '"',
        ] + doubled(name) + seq!['"'],
        path.len() > 0 ==> leaf_key(path.push(PathModel::ElementType)) == leaf_key(path) + seq![
            '.',
            '"',
        ] + doubled("element"@) + seq!['"'],
{
    let none = Seq::<PathModel>::empty();
    assert(path_names(none) =~= Seq::<Seq<char>>::empty());
    assert(path_names(seq![PathModel::Name(name)]) =~= seq![name]);
    lemma_joined_push(path_names(path), name);
    assert(path_names(path.push(PathModel::Name(name))) =~= path_names(path).push(name));
    lemma_joined_push(path_names(path), "element"@);
    assert(path_names(path.push(PathModel::ElementType)) =~= path_names(path).push("element"@));
    if path.len() > 0 {
        assert(leaf_key(path.push(PathModel::Name(name))) =~= leaf_key(path) + seq!['.', '"']
            + doubled(name) + seq!['"']);
        assert(leaf_key(path.push(PathModel::ElementType)) =~= leaf_key(path) + seq!['.', '"']
            + doubled("element"@) + seq!['"']);
    }
}

} // verus!
