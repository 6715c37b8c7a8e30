//! Which paths are the same.
//!
//! Two paths are the same when they are made of the same components: separators that
//! follow one another count once, one at the end does not count, and neither does a
//! `.` but at the beginning of a relative path. A `..` is a component as any other.

use vstd::prelude::*;

verus! {

/// What stands between two components.
pub const SEPARATOR: u8 = 0x2f;

/// The name of the directory itself.
pub const DOT: u8 = 0x2e;

/// The views of a list of byte vectors.
pub open spec fn byte_seqs(list: Seq<Vec<u8>>) -> Seq<Seq<u8>> {
    Seq::new(list.len(), |i: int| list[i]@)
}

/// What stands between the separators of a path, in order.
pub open spec fn pieces(path: Seq<u8>) -> Seq<Seq<u8>>
    decreases path.len(),
{
    if path.len() == 0 {
        seq![Seq::<u8>::empty()]
    } else {
        let before = pieces(path.drop_last());
        if path.last() == SEPARATOR {
            before.push(Seq::<u8>::empty())
        } else {
            before.drop_last().push(before.last().push(path.last()))
        }
    }
}

/// Whether a piece is a component: it is one unless it is empty or names the
/// directory itself.
pub open spec fn is_name(piece: Seq<u8>) -> bool {
    piece.len() > 0 && piece != seq![DOT]
}

/// The components among pieces.
pub open spec fn names_in(list: Seq<Seq<u8>>) -> Seq<Seq<u8>>
    decreases list.len(),
{
    if list.len() == 0 {
        list
    } else if is_name(list.last()) {
        names_in(list.drop_last()).push(list.last())
    } else {
        names_in(list.drop_last())
    }
}

/// What a path is made of.
pub struct PathComponents {
    /// Whether the path begins at the root.
    pub rooted: bool,
    /// Whether a relative path begins with a `.`.
    pub here: bool,
    /// The other components, in order.
    pub names: Vec<Vec<u8>>,
}

/// What `PathComponents` holds.
#[verifier::ext_equal]
pub struct ComponentsView {
    pub rooted: bool,
    pub here: bool,
    pub names: Seq<Seq<u8>>,
}

impl View for PathComponents {
    type V = ComponentsView;

    open spec fn view(&self) -> ComponentsView {
        ComponentsView { rooted: self.rooted, here: self.here, names: byte_seqs(self.names@) }
    }
}

/// What a path is made of.
pub open spec fn components(path: Seq<u8>) -> ComponentsView {
    let rooted = path.len() > 0 && path[0] == SEPARATOR;
    ComponentsView {
        rooted,
        here: !rooted && pieces(path)[0] == seq![DOT],
        names: names_in(pieces(path)),
    }
}

/// The views of a list.
pub open spec fn component_views(list: Seq<PathComponents>) -> Seq<ComponentsView> {
    Seq::new(list.len(), |i: int| list[i]@)
}

proof fn lemma_pieces(path: Seq<u8>)
    ensures
        pieces(path).len() > 0,
    decreases path.len(),
{
    if path.len() > 0 {
        lemma_pieces(path.drop_last());
    }
}

/// A copy of bytes.
pub fn copy_bytes(b: &Vec<u8>) -> (r: Vec<u8>)
    ensures
        r@ == b@,
{
    let mut r: Vec<u8> = Vec::new();
    let mut i: usize = 0;
    while i < b.len()
        invariant
            i <= b.len(),
            r@ == b@.take(i as int),
        decreases b.len() - i,
    {
        r.push(b[i]);
        i += 1;
        proof {
            assert(b@.take(i as int) =~= b@.take(i - 1).push(b@[i - 1]));
        }
    }
    proof {
        assert(b@.take(i as int) =~= b@);
    }
    r
}

fn same_bytes(a: &Vec<u8>, b: &Vec<u8>) -> (r: bool)
    ensures
        r == (a@ == b@),
{
    if a.len() != b.len() {
        return false;
    }
    let mut i: usize = 0;
    while i < a.len()
        invariant
            i <= a.len(),
            a.len() == b.len(),
            forall|j: int| 0 <= j < i ==> a@[j] == b@[j],
        decreases a.len() - i,
    {
        if a[i] != b[i] {
            return false;
        }
        i += 1;
    }
    proof {
        assert(a@ =~= b@);
    }
    true
}

fn is_dot(piece: &Vec<u8>) -> (r: bool)
    ensures
        r == (piece@ == seq![DOT]),
{
    let r: bool = piece.len() == 1 && piece[0] == DOT;
    proof {
        if r {
            assert(piece@ =~= seq![DOT]);
        }
    }
    r
}

/// Splits a path at its separators.
fn split_path(path: &Vec<u8>) -> (r: Vec<Vec<u8>>)
    ensures
        byte_seqs(r@) == pieces(path@),
        r@.len() > 0,
{
    let mut done: Vec<Vec<u8>> = Vec::new();
    let mut piece: Vec<u8> = Vec::new();
    let mut i: usize = 0;
    proof {
        assert(path@.take(0) =~= Seq::<u8>::empty());
        assert(byte_seqs(done@).push(piece@) =~= seq![Seq::<u8>::empty()]);
    }
    while i < path.len()
        invariant
            i <= path.len(),
            byte_seqs(done@).push(piece@) == pieces(path@.take(i as int)),
        decreases path.len() - i,
    {
        let b: u8 = path[i];
        let ghost before = byte_seqs(done@).push(piece@);
        proof {
            assert(path@.take(i + 1).drop_last() =~= path@.take(i as int));
            assert(path@.take(i + 1).last() == b);
            assert(before.drop_last() =~= byte_seqs(done@));
            assert(before.last() == piece@);
        }
        if b == SEPARATOR {
            done.push(piece);
            piece = Vec::new();
            proof {
                assert(byte_seqs(done@) =~= before);
                assert(piece@ =~= Seq::<u8>::empty());
            }
        } else {
            piece.push(b);
        }
        i += 1;
    }
    let ghost last = piece@;
    let ghost earlier = byte_seqs(done@);
    done.push(piece);
    proof {
        assert(path@.take(i as int) =~= path@);
        assert(byte_seqs(done@) =~= earlier.push(last));
    }
    done
}

/// Leaves the components among pieces.
fn keep_names(list: &Vec<Vec<u8>>) -> (r: Vec<Vec<u8>>)
    ensures
        byte_seqs(r@) == names_in(byte_seqs(list@)),
{
    let ghost all = byte_seqs(list@);
    let mut r: Vec<Vec<u8>> = Vec::new();
    let mut i: usize = 0;
    proof {
        assert(byte_seqs(r@) =~= all.take(0));
    }
    while i < list.len()
        invariant
            i <= list.len(),
            all == byte_seqs(list@),
            byte_seqs(r@) == names_in(all.take(i as int)),
        decreases list.len() - i,
    {
        let piece: &Vec<u8> = &list[i];
        let ghost before = byte_seqs(r@);
        proof {
            assert(all.take(i + 1).drop_last() =~= all.take(i as int));
            assert(all.take(i + 1).last() == piece@);
        }
        if piece.len() > 0 && !is_dot(piece) {
            r.push(copy_bytes(piece));
            proof {
                assert(byte_seqs(r@) =~= before.push(piece@));
            }
        }
        i += 1;
    }
    proof {
        assert(all.take(i as int) =~= all);
    }
    r
}

impl PathComponents {
    /// What a path is made of.
    pub fn of(path: &Vec<u8>) -> (r: Self)
        ensures
            r@ == components(path@),
    {
        let split: Vec<Vec<u8>> = split_path(path);
        let rooted: bool = path.len() > 0 && path[0] == SEPARATOR;
        let here: bool = !rooted && is_dot(&split[0]);
        proof {
            assert(byte_seqs(split@)[0] == split@[0]@);
        }
        PathComponents { rooted, here, names: keep_names(&split) }
    }

    /// Whether two paths are made of the same components.
    pub fn same(&self, other: &PathComponents) -> (r: bool)
        ensures
            r == (self@ == other@),
    {
        if self.rooted != other.rooted || self.here != other.here || self.names.len()
            != other.names.len() {
            proof {
                assert(self@.names.len() == self.names@.len());
                assert(other@.names.len() == other.names@.len());
            }
            return false;
        }
        let mut i: usize = 0;
        while i < self.names.len()
            invariant
                i <= self.names.len(),
                self.names.len() == other.names.len(),
                forall|j: int| 0 <= j < i ==> self@.names[j] == #[trigger] other@.names[j],
            decreases self.names.len() - i,
        {
            if !same_bytes(&self.names[i], &other.names[i]) {
                proof {
                    assert(self@.names[i as int] != other@.names[i as int]);
                }
                return false;
            }
            i += 1;
        }
        proof {
            assert(self@.names =~= other@.names);
        }
        true
    }
}

// Laws ---------------------------------------------------------------------------

proof fn lemma_joined(a: Seq<u8>, b: Seq<u8>)
    ensures
        pieces(a.push(SEPARATOR) + b) == pieces(a) + pieces(b),
    decreases b.len(),
{
    let whole = a.push(SEPARATOR) + b;
    if b.len() == 0 {
        assert(whole =~= a.push(SEPARATOR));
        assert(whole.drop_last() =~= a);
        assert(pieces(whole) =~= pieces(a) + pieces(b));
    } else {
        lemma_joined(a, b.drop_last());
        lemma_pieces(b.drop_last());
        assert(whole.drop_last() =~= a.push(SEPARATOR) + b.drop_last());
        assert(whole.last() == b.last());
        let x = pieces(a);
        let y = pieces(b.drop_last());
        assert((x + y).last() == y.last());
        assert((x + y).drop_last() =~= x + y.drop_last());
        assert(pieces(whole) =~= x + pieces(b));
    }
}

proof fn lemma_names_joined(a: Seq<Seq<u8>>, b: Seq<Seq<u8>>)
    ensures
        names_in(a + b) == names_in(a) + names_in(b),
    decreases b.len(),
{
    if b.len() == 0 {
        assert(a + b =~= a);
        assert(names_in(a) + names_in(b) =~= names_in(a));
    } else {
        lemma_names_joined(a, b.drop_last());
        assert((a + b).drop_last() =~= a + b.drop_last());
        assert((a + b).last() == b.last());
        assert(names_in(a + b) =~= names_in(a) + names_in(b));
    }
}

proof fn lemma_no_name(piece: Seq<u8>)
    requires
        !is_name(piece),
    ensures
        names_in(seq![piece]) == Seq::<Seq<u8>>::empty(),
{
    assert(seq![piece].last() == piece);
    assert(seq![piece].drop_last() =~= Seq::<Seq<u8>>::empty());
    assert(names_in(Seq::<Seq<u8>>::empty()) =~= Seq::<Seq<u8>>::empty());
}

/// Separators that follow one another count once, and so do separators with nothing
/// but a `.` between them.
pub proof fn separators_collapse(a: Seq<u8>, b: Seq<u8>)
    ensures
        components(a.push(SEPARATOR).push(SEPARATOR) + b) == components(a.push(SEPARATOR) + b),
        components(a.push(SEPARATOR).push(DOT).push(SEPARATOR) + b) == components(
            a.push(SEPARATOR) + b,
        ),
{
    let none = Seq::<u8>::empty();
    let dot = seq![DOT];
    let plain = a.push(SEPARATOR) + b;
    let twice = a.push(SEPARATOR).push(SEPARATOR) + b;
    let dotted = a.push(SEPARATOR).push(DOT).push(SEPARATOR) + b;
    lemma_pieces(a);
    lemma_joined(a, b);
    lemma_joined(a.push(SEPARATOR), b);
    lemma_joined(a, none);
    assert(a.push(SEPARATOR) + none =~= a.push(SEPARATOR));
    lemma_joined(a.push(SEPARATOR).push(DOT), b);
    lemma_joined(a, dot);
    assert(a.push(SEPARATOR) + dot =~= a.push(SEPARATOR).push(DOT));
    assert(pieces(none) =~= seq![none]);
    assert(dot.drop_last() =~= none);
    assert(pieces(dot) =~= seq![dot]) by {
        assert(none.push(DOT) =~= dot);
        assert(pieces(dot) =~= seq![none].drop_last().push(none.push(DOT)));
    }
    let x = pieces(a);
    let y = pieces(b);
    lemma_names_joined(x, y);
    lemma_names_joined(x + seq![none], y);
    lemma_names_joined(x, seq![none]);
    lemma_no_name(none);
    lemma_names_joined(x + seq![dot], y);
    lemma_names_joined(x, seq![dot]);
    lemma_no_name(dot);
    assert(names_in(x) + Seq::<Seq<u8>>::empty() =~= names_in(x));
    assert(plain[0] == twice[0] && plain[0] == dotted[0]);
    assert((x + y)[0] == x[0]);
    assert((x + seq![none] + y)[0] == x[0]);
    assert((x + seq![dot] + y)[0] == x[0]);
}

/// A separator at the end of a path does not count.
pub proof fn trailing_separator_ignored(path: Seq<u8>)
    requires
        path.len() > 0,
    ensures
        components(path.push(SEPARATOR)) == components(path),
{
    let none = Seq::<u8>::empty();
    lemma_pieces(path);
    lemma_joined(path, none);
    assert(path.push(SEPARATOR) + none =~= path.push(SEPARATOR));
    assert(pieces(none) =~= seq![none]);
    lemma_names_joined(pieces(path), seq![none]);
    lemma_no_name(none);
    assert(names_in(pieces(path)) + Seq::<Seq<u8>>::empty() =~= names_in(pieces(path)));
    assert((pieces(path) + seq![none])[0] == pieces(path)[0]);
}

proof fn lemma_one_piece(name: Seq<u8>)
    requires
        forall|i: int| 0 <= i < name.len() ==> name[i] != 0x2f,
    ensures
        pieces(name) == seq![name],
    decreases name.len(),
{
    if name.len() > 0 {
        let head = name.drop_last();
        assert forall|i: int| 0 <= i < head.len() implies head[i] != 0x2f by {
            assert(head[i] == name[i]);
        }
        lemma_one_piece(head);
        assert(name[name.len() - 1] == name.last());
        assert(head.push(name.last()) =~= name);
        assert(seq![head].drop_last().push(name) =~= seq![name]);
        assert(seq![head].last() == head);
    } else {
        assert(name =~= Seq::<u8>::empty());
    }
}

/// What stands behind the last separator of a path is its last component, unless it is
/// nothing or a dot; and a path is rooted exactly where it begins with a separator.
pub proof fn last_name_is_a_component(dir: Seq<u8>, name: Seq<u8>)
    requires
        name.len() > 0,
        name != seq!['.' as u8],
        forall|i: int| 0 <= i < name.len() ==> name[i] != '/' as u8,
    ensures
        components(dir + seq!['/' as u8] + name).names == components(dir).names.push(name),
        components(name).names == seq![name],
        !components(name).rooted && !components(name).here,
        components(dir + seq!['/' as u8] + name).rooted <==> dir.len() == 0 || dir[0]
            == '/' as u8,
        components(seq!['.' as u8] + seq!['/' as u8] + name).here,
{
    let path = dir + seq!['/' as u8] + name;
    assert(path =~= dir.push(SEPARATOR) + name);
    lemma_joined(dir, name);
    lemma_one_piece(name);
    lemma_pieces(dir);
    lemma_names_joined(pieces(dir), seq![name]);
    let one = seq![name];
    assert(one.drop_last() =~= Seq::<Seq<u8>>::empty());
    assert(one.last() == name);
    assert(names_in(one.drop_last()) =~= Seq::<Seq<u8>>::empty());
    assert(names_in(one) =~= one);
    assert(names_in(pieces(dir)) + one =~= names_in(pieces(dir)).push(name));
    if dir.len() > 0 {
        assert(path[0] == dir[0]);
    } else {
        assert(path[0] == '/' as u8);
    }
    let dot = seq!['.' as u8];
    let dotted = dot + seq!['/' as u8] + name;
    assert(dotted =~= dot.push(SEPARATOR) + name);
    lemma_joined(dot, name);
    lemma_one_piece(dot);
    assert((pieces(dot) + pieces(name))[0] == dot);
    assert(dotted[0] == '.' as u8);
}

} // verus!
