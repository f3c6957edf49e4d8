use vstd::prelude::*;

verus! {

/// How many coordinates a list holds: one for each number key.
pub const COORD_SLOTS: usize = 10;

/// The values of the lines that parsed, in their order.
pub open spec fn accepted<T>(parsed: Seq<Option<T>>) -> Seq<T>
    decreases parsed.len(),
{
    if parsed.len() == 0 {
        Seq::empty()
    } else {
        match parsed.last() {
            Some(value) => accepted(parsed.drop_last()).push(value),
            None => accepted(parsed.drop_last()),
        }
    }
}

/// The ten slots of a list made from `parsed`: the first ten lines that
/// parsed, in their order, and `default` in the slots that are left.
pub open spec fn slots_of<T>(default: T, parsed: Seq<Option<T>>) -> Seq<T> {
    Seq::new(
        COORD_SLOTS as nat,
        |i: int|
            if i < accepted(parsed).len() {
                accepted(parsed)[i]
            } else {
                default
            },
    )
}

/// What the first lines give is the start of what all lines give.
pub proof fn lemma_accepted_prefix<T>(parsed: Seq<Option<T>>, n: int)
    requires
        0 <= n <= parsed.len(),
    ensures
        accepted(parsed.take(n)).len() <= accepted(parsed).len(),
        forall|i: int|
            0 <= i < accepted(parsed.take(n)).len() ==> accepted(parsed.take(n))[i] == accepted(
                parsed,
            )[i],
    decreases parsed.len(),
{
    if n == parsed.len() {
        assert(parsed.take(n) =~= parsed);
    } else {
        let rest = parsed.drop_last();
        assert(rest.take(n) =~= parsed.take(n));
        lemma_accepted_prefix(rest, n);
    }
}

/// The coordinates that the number keys lead to. `T` is the caller's kind of
/// coordinate.
pub struct CoordList<T> {
    coordlist: [T; 10],
}

impl<T> View for CoordList<T> {
    type V = Seq<T>;

    closed spec fn view(&self) -> Seq<T> {
        self.coordlist@
    }
}

impl<T: Copy> CoordList<T> {
    /// There is a coordinate for each number key.
    pub proof fn lemma_len(&self)
        ensures
            self@.len() == COORD_SLOTS,
    {
        vstd::array::array_len_matches_n(&self.coordlist);
    }

    /// The list that the lines of a file give. `parsed` holds, for each
    /// line, the coordinate that it parsed to, or `None` for a line that is
    /// none. The first ten coordinates take the slots in their order; what
    /// follows them is left out. Slots that stay free hold `default`.
    pub fn new(default: T, parsed: &Vec<Option<T>>) -> (list: Self)
        ensures
            list@ == slots_of(default, parsed@),
    {
        let mut coordlist: [T; 10] = [default; 10];
        let mut count: usize = 0;
        let mut i: usize = 0;
        assert(parsed@.take(0) =~= Seq::<Option<T>>::empty());
        while i < parsed.len() && count < COORD_SLOTS
            invariant
                i <= parsed@.len(),
                count <= COORD_SLOTS,
                coordlist@.len() == COORD_SLOTS,
                count == accepted(parsed@.take(i as int)).len(),
                forall|j: int|
                    0 <= j < count ==> coordlist@[j] == accepted(parsed@.take(i as int))[j],
                forall|j: int| count <= j < COORD_SLOTS ==> coordlist@[j] == default,
            decreases parsed@.len() - i,
        {
            proof {
                let next = parsed@.take(i as int + 1);
                assert(next.drop_last() =~= parsed@.take(i as int));
                assert(next.last() == parsed@[i as int]);
            }
            match parsed[i] {
                Some(value) => {
                    coordlist[count] = value;
                    count = count + 1;
                },
                None => {},
            }
            i = i + 1;
        }
        proof {
            lemma_accepted_prefix(parsed@, i as int);
            if i == parsed@.len() {
                assert(parsed@.take(i as int) =~= parsed@);
            }
            assert(coordlist@ =~= slots_of(default, parsed@));
        }
        CoordList { coordlist }
    }

    /// The coordinate of the number key with this index.
    pub fn get(&self, index: usize) -> (coord: T)
        requires
            index < COORD_SLOTS,
        ensures
            coord == self@[index as int],
    {
        self.coordlist[index]
    }

    /// The number of coordinates: one for each number key.
    pub fn len(&self) -> (n: usize)
        ensures
            n == COORD_SLOTS,
            n == self@.len(),
    {
        proof {
            self.lemma_len();
        }
        COORD_SLOTS
    }
}

/// `fields` cuts `line` at every byte `sep`: the fields lie one after the
/// other, a separator between each two, from the start of the line to its
/// end, and none holds a separator.
pub open spec fn is_split(line: Seq<u8>, sep: u8, fields: Seq<(usize, usize)>) -> bool {
    &&& fields.len() >= 1
    &&& fields[0].0 == 0
    &&& fields.last().1 == line.len()
    &&& forall|k: int| 0 <= k < fields.len() ==> (#[trigger] fields[k]).0 <= fields[k].1 <= line.len()
    &&& forall|k: int|
        0 <= k < fields.len() - 1 ==> {
            &&& (#[trigger] fields[k]).1 < line.len()
            &&& line[fields[k].1 as int] == sep
            &&& fields[k + 1].0 == fields[k].1 + 1
        }
    &&& forall|k: int, i: int|
        #![trigger fields[k], line[i]]
        0 <= k < fields.len() && fields[k].0 <= i < fields[k].1 ==> line[i] != sep
}

/// Cuts a line of a coordinate file into its fields, at every byte `sep`.
/// Each field is given by the place of its first byte and the place after
/// its last.
pub fn split_fields(line: &Vec<u8>, sep: u8) -> (fields: Vec<(usize, usize)>)
    ensures
        is_split(line@, sep, fields@),
{
    let mut fields: Vec<(usize, usize)> = Vec::new();
    let mut start: usize = 0;
    let mut i: usize = 0;
    while i < line.len()
        invariant
            start <= i <= line@.len(),
            forall|k: int| 0 <= k < fields@.len() ==> (#[trigger] fields@[k]).0 <= fields@[k].1 < i,
            forall|k: int| 0 <= k < fields@.len() ==> line@[(#[trigger] fields@[k]).1 as int] == sep,
            forall|k: int|
                0 <= k < fields@.len() - 1 ==> fields@[k + 1].0 == (#[trigger] fields@[k]).1 + 1,
            fields@.len() > 0 ==> fields@[0].0 == 0 && start == fields@.last().1 + 1,
            fields@.len() == 0 ==> start == 0,
            forall|k: int, j: int|
                #![trigger fields@[k], line@[j]]
                0 <= k < fields@.len() && fields@[k].0 <= j < fields@[k].1 ==> line@[j] != sep,
            forall|j: int| start <= j < i ==> line@[j] != sep,
        decreases line@.len() - i,
    {
        if line[i] == sep {
            let ghost before = fields@;
            fields.push((start, i));
            proof {
                assert forall|k: int, j: int|
                    #![trigger fields@[k], line@[j]]
                    0 <= k < fields@.len() && fields@[k].0 <= j < fields@[k].1 implies line@[j]
                    != sep by {
                    if k < before.len() {
                        assert(fields@[k] == before[k]);
                    }
                }
                assert forall|k: int| 0 <= k < fields@.len() - 1 implies fields@[k + 1].0 == (
                #[trigger] fields@[k]).1 + 1 by {
                    if k + 1 < before.len() {
                        assert(fields@[k] == before[k]);
                        assert(fields@[k + 1] == before[k + 1]);
                    } else {
                        assert(fields@[k] == before[k]);
                    }
                }
            }
            start = i + 1;
        }
        i = i + 1;
    }
    let ghost before = fields@;
    fields.push((start, i));
    proof {
        assert forall|k: int, j: int|
            #![trigger fields@[k], line@[j]]
            0 <= k < fields@.len() && fields@[k].0 <= j < fields@[k].1 implies line@[j] != sep by {
            if k < before.len() {
                assert(fields@[k] == before[k]);
            }
        }
        assert forall|k: int| 0 <= k < fields@.len() - 1 implies {
            &&& (#[trigger] fields@[k]).1 < line@.len()
            &&& line@[fields@[k].1 as int] == sep
            &&& fields@[k + 1].0 == fields@[k].1 + 1
        } by {
            assert(fields@[k] == before[k]);
            if k + 1 < before.len() {
                assert(fields@[k + 1] == before[k + 1]);
            }
        }
        assert forall|k: int| 0 <= k < fields@.len() implies (#[trigger] fields@[k]).0
            <= fields@[k].1 <= line@.len() by {
            if k < before.len() {
                assert(fields@[k] == before[k]);
            }
        }
        if before.len() > 0 {
            assert(fields@[0] == before[0]);
        }
    }
    fields
}

/// The fields of a line that has exactly `expected` of them, `None` for any
/// other line.
pub fn fields_of_line(line: &Vec<u8>, sep: u8, expected: usize) -> (fields: Option<
    Vec<(usize, usize)>,
>)
    ensures
        fields matches Some(f) ==> is_split(line@, sep, f@) && f@.len() == expected,
        fields is None ==> forall|f: Seq<(usize, usize)>|
            #[trigger] is_split(line@, sep, f) ==> f.len() != expected,
{
    let fields = split_fields(line, sep);
    if fields.len() == expected {
        Some(fields)
    } else {
        proof {
            assert forall|f: Seq<(usize, usize)>| #[trigger]
                is_split(line@, sep, f) implies f.len() != expected by {
                lemma_split_is_unique(line@, sep, fields@, f);
            }
        }
        None
    }
}

/// A line is cut into fields in one way only.
pub proof fn lemma_split_is_unique(
    line: Seq<u8>,
    sep: u8,
    a: Seq<(usize, usize)>,
    b: Seq<(usize, usize)>,
)
    requires
        is_split(line, sep, a),
        is_split(line, sep, b),
    ensures
        a == b,
{
    lemma_split_agrees(line, sep, a, b, (a.len() - 1) as int);
    lemma_split_agrees(line, sep, b, a, (b.len() - 1) as int);
    if a.len() < b.len() {
        let k = a.len() - 1;
        assert(a[k] == b[k]);
        assert(b[k].1 < line.len());
    } else if b.len() < a.len() {
        let k = b.len() - 1;
        assert(a[k] == b[k]);
        assert(a[k].1 < line.len());
    }
    assert(a =~= b);
}

/// Two ways to cut a line agree on every field that both have.
pub proof fn lemma_split_agrees(
    line: Seq<u8>,
    sep: u8,
    a: Seq<(usize, usize)>,
    b: Seq<(usize, usize)>,
    k: int,
)
    requires
        is_split(line, sep, a),
        is_split(line, sep, b),
        0 <= k < a.len(),
    ensures
        forall|j: int| 0 <= j <= k && j < b.len() ==> a[j] == b[j],
    decreases k,
{
    if k > 0 {
        lemma_split_agrees(line, sep, a, b, k - 1);
    }
    if k < b.len() {
        assert(a[k].0 == b[k].0) by {
            if k > 0 {
                assert(a[k - 1] == b[k - 1]);
            }
        }
        if a[k].1 < b[k].1 {
            if k < a.len() - 1 {
                assert(line[a[k].1 as int] == sep);
                assert(b[k].0 <= a[k].1 < b[k].1);
                assert(line[a[k].1 as int] != sep);
            } else {
                assert(a[k].1 == line.len());
            }
        } else if b[k].1 < a[k].1 {
            if k < b.len() - 1 {
                assert(line[b[k].1 as int] == sep);
                assert(a[k].0 <= b[k].1 < a[k].1);
                assert(line[b[k].1 as int] != sep);
            } else {
                assert(b[k].1 == line.len());
            }
        }
    }
}

} // verus!
