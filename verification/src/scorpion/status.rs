//! Scorpion's two-digit status codes: a major class and a minor detail.
use vstd::prelude::*;

use crate::text::{
    chars_of, digit_char, find, join, slice_chars, split_once, split_once_char, string_of,
    string_views, strings_of, views,
};

verus! {

/// The major class of a status: its tens digit.
#[derive(Clone, Copy, Debug, PartialEq, Eq, Structural, PartialOrd, Ord, Hash)]
pub enum Major {
    /// `0x`: an interactive session follows.
    Interactive,
    /// `1x`: the server wants input.
    Input,
    /// `2x`: the file follows.
    Success,
    /// `3x`: look elsewhere.
    Redirect,
    /// `4x`: try again later.
    TemporaryError,
    /// `5x`: do not try again.
    PermanentError,
    /// `6x`: a client certificate is needed.
    CertificateRequired,
    /// `7x`: the server is ready to receive an upload.
    ReadyToReceive,
    /// `8x`: an upload was accepted.
    Accepted,
}

impl Major {
    /// The digit of each class.
    pub open spec fn spec_digit(self) -> u8 {
        match self {
            Major::Interactive => 0,
            Major::Input => 1,
            Major::Success => 2,
            Major::Redirect => 3,
            Major::TemporaryError => 4,
            Major::PermanentError => 5,
            Major::CertificateRequired => 6,
            Major::ReadyToReceive => 7,
            Major::Accepted => 8,
        }
    }

    /// The class that a digit names, if any.
    pub open spec fn spec_from_digit(digit: u8) -> Option<Major> {
        if digit == 0 {
            Some(Major::Interactive)
        } else if digit == 1 {
            Some(Major::Input)
        } else if digit == 2 {
            Some(Major::Success)
        } else if digit == 3 {
            Some(Major::Redirect)
        } else if digit == 4 {
            Some(Major::TemporaryError)
        } else if digit == 5 {
            Some(Major::PermanentError)
        } else if digit == 6 {
            Some(Major::CertificateRequired)
        } else if digit == 7 {
            Some(Major::ReadyToReceive)
        } else if digit == 8 {
            Some(Major::Accepted)
        } else {
            None
        }
    }

    /// The class's digit.
    pub fn digit(self) -> (r: u8)
        ensures
            r == self.spec_digit(),
    {
        match self {
            Self::Interactive => 0,
            Self::Input => 1,
            Self::Success => 2,
            Self::Redirect => 3,
            Self::TemporaryError => 4,
            Self::PermanentError => 5,
            Self::CertificateRequired => 6,
            Self::ReadyToReceive => 7,
            Self::Accepted => 8,
        }
    }

    /// The class for a digit, or `None` for 9 and above.
    pub fn from_digit(digit: u8) -> (r: Option<Self>)
        ensures
            r == Self::spec_from_digit(digit),
    {
        match digit {
            0 => Some(Self::Interactive),
            1 => Some(Self::Input),
            2 => Some(Self::Success),
            3 => Some(Self::Redirect),
            4 => Some(Self::TemporaryError),
            5 => Some(Self::PermanentError),
            6 => Some(Self::CertificateRequired),
            7 => Some(Self::ReadyToReceive),
            8 => Some(Self::Accepted),
            _ => None,
        }
    }

    /// Only a success carries file data.
    pub fn has_body(self) -> (r: bool)
        ensures
            r == (self == Major::Success),
    {
        matches!(self, Self::Success)
    }

    /// How many space-free parameters lead a line of this class; whatever
    /// follows them is one parameter, spaces and all.
    pub open spec fn spec_leading_parameters(self) -> nat {
        match self {
            Major::Success | Major::Accepted => 2,
            Major::TemporaryError => 1,
            Major::CertificateRequired => 1,
            _ => 0,
        }
    }

    fn leading_parameters(self) -> (r: usize)
        ensures
            r == self.spec_leading_parameters(),
    {
        match self {
            Self::Success | Self::Accepted => 2,
            Self::TemporaryError => 1,
            Self::CertificateRequired => 1,
            _ => 0,
        }
    }
}

/// Every class's digit names it back, and a digit names a class exactly when
/// it is below nine.
pub proof fn lemma_major_digit_round_trip(major: Major, digit: u8)
    ensures
        Major::spec_from_digit(major.spec_digit()) == Some(major),
        major.spec_digit() <= 8,
        Major::spec_from_digit(digit) is Some <==> digit <= 8,
        Major::spec_from_digit(digit) matches Some(m) ==> m.spec_digit() == digit,
{
}

/// A status code: two decimal digits, the first naming the class.
#[derive(Clone, Copy, Debug, PartialEq, Eq, PartialOrd, Ord, Hash)]
pub struct Status(u8);

impl Status {
    /// A status holds a class digit of 0 to 8 and any minor digit.
    #[verifier::type_invariant]
    spec fn well_formed(self) -> bool {
        self.0 < 90
    }

    /// The two-digit code.
    pub closed spec fn spec_code(self) -> u8 {
        self.0
    }

    /// The class of the code.
    pub open spec fn spec_major(self) -> Major {
        Major::spec_from_digit((self.spec_code() / 10) as u8).unwrap()
    }

    /// `00`
    #[allow(non_snake_case)]
    pub fn INTERACTIVE() -> (r: Self)
        ensures
            r.spec_code() == 0,
    {
        Self(0)
    }
    /// `10`
    #[allow(non_snake_case)]
    pub fn INPUT() -> (r: Self)
        ensures
            r.spec_code() == 10,
    {
        Self(10)
    }
    /// `20`
    #[allow(non_snake_case)]
    pub fn OK() -> (r: Self)
        ensures
            r.spec_code() == 20,
    {
        Self(20)
    }
    /// `21`
    #[allow(non_snake_case)]
    pub fn PARTIAL() -> (r: Self)
        ensures
            r.spec_code() == 21,
    {
        Self(21)
    }
    /// `22`
    #[allow(non_snake_case)]
    pub fn METADATA() -> (r: Self)
        ensures
            r.spec_code() == 22,
    {
        Self(22)
    }
    /// `30`
    #[allow(non_snake_case)]
    pub fn TEMPORARY_REDIRECT() -> (r: Self)
        ensures
            r.spec_code() == 30,
    {
        Self(30)
    }
    /// `31`
    #[allow(non_snake_case)]
    pub fn PERMANENT_REDIRECT() -> (r: Self)
        ensures
            r.spec_code() == 31,
    {
        Self(31)
    }
    /// `40`
    #[allow(non_snake_case)]
    pub fn TEMPORARY_ERROR() -> (r: Self)
        ensures
            r.spec_code() == 40,
    {
        Self(40)
    }
    /// `41`
    #[allow(non_snake_case)]
    pub fn MAINTENANCE() -> (r: Self)
        ensures
            r.spec_code() == 41,
    {
        Self(41)
    }
    /// `42`
    #[allow(non_snake_case)]
    pub fn DYNAMIC_FAILURE() -> (r: Self)
        ensures
            r.spec_code() == 42,
    {
        Self(42)
    }
    /// `43`
    #[allow(non_snake_case)]
    pub fn PROXY_ERROR() -> (r: Self)
        ensures
            r.spec_code() == 43,
    {
        Self(43)
    }
    /// `44`
    #[allow(non_snake_case)]
    pub fn SLOW_DOWN() -> (r: Self)
        ensures
            r.spec_code() == 44,
    {
        Self(44)
    }
    /// `45`
    #[allow(non_snake_case)]
    pub fn LOCKED() -> (r: Self)
        ensures
            r.spec_code() == 45,
    {
        Self(45)
    }
    /// `50`
    #[allow(non_snake_case)]
    pub fn PERMANENT_ERROR() -> (r: Self)
        ensures
            r.spec_code() == 50,
    {
        Self(50)
    }
    /// `51`
    #[allow(non_snake_case)]
    pub fn NOT_FOUND() -> (r: Self)
        ensures
            r.spec_code() == 51,
    {
        Self(51)
    }
    /// `52`
    #[allow(non_snake_case)]
    pub fn GONE() -> (r: Self)
        ensures
            r.spec_code() == 52,
    {
        Self(52)
    }
    /// `53`
    #[allow(non_snake_case)]
    pub fn PROXY_REFUSED() -> (r: Self)
        ensures
            r.spec_code() == 53,
    {
        Self(53)
    }
    /// `54`
    #[allow(non_snake_case)]
    pub fn FORBIDDEN() -> (r: Self)
        ensures
            r.spec_code() == 54,
    {
        Self(54)
    }
    /// `55`
    #[allow(non_snake_case)]
    pub fn CONFLICT() -> (r: Self)
        ensures
            r.spec_code() == 55,
    {
        Self(55)
    }
    /// `56`
    #[allow(non_snake_case)]
    pub fn AUTH_REQUIRED() -> (r: Self)
        ensures
            r.spec_code() == 56,
    {
        Self(56)
    }
    /// `59`
    #[allow(non_snake_case)]
    pub fn BAD_REQUEST() -> (r: Self)
        ensures
            r.spec_code() == 59,
    {
        Self(59)
    }
    /// `60`
    #[allow(non_snake_case)]
    pub fn CERTIFICATE_REQUIRED() -> (r: Self)
        ensures
            r.spec_code() == 60,
    {
        Self(60)
    }
    /// `61`
    #[allow(non_snake_case)]
    pub fn CERTIFICATE_UNAUTHORIZED() -> (r: Self)
        ensures
            r.spec_code() == 61,
    {
        Self(61)
    }
    /// `62`
    #[allow(non_snake_case)]
    pub fn CERTIFICATE_INVALID() -> (r: Self)
        ensures
            r.spec_code() == 62,
    {
        Self(62)
    }
    /// `70`
    #[allow(non_snake_case)]
    pub fn READY_NEW() -> (r: Self)
        ensures
            r.spec_code() == 70,
    {
        Self(70)
    }
    /// `71`
    #[allow(non_snake_case)]
    pub fn READY_REPLACE() -> (r: Self)
        ensures
            r.spec_code() == 71,
    {
        Self(71)
    }
    /// `72`
    #[allow(non_snake_case)]
    pub fn READY_OTHER() -> (r: Self)
        ensures
            r.spec_code() == 72,
    {
        Self(72)
    }
    /// `80`
    #[allow(non_snake_case)]
    pub fn ACCEPTED_NEW() -> (r: Self)
        ensures
            r.spec_code() == 80,
    {
        Self(80)
    }
    /// `81`
    #[allow(non_snake_case)]
    pub fn ACCEPTED_MODIFIED() -> (r: Self)
        ensures
            r.spec_code() == 81,
    {
        Self(81)
    }
    /// `82`
    #[allow(non_snake_case)]
    pub fn ACCEPTED_OTHER() -> (r: Self)
        ensures
            r.spec_code() == 82,
    {
        Self(82)
    }

    /// The status with these digits, or `None` unless the class is 0 to 8
    /// and the minor digit 0 to 9.
    pub fn new(major: u8, minor: u8) -> (r: Option<Self>)
        ensures
            major <= 8 && minor <= 9 ==> (r matches Some(s) && s.spec_code() == major * 10 + minor),
            !(major <= 8 && minor <= 9) ==> r is None,
    {
        if major > 8 || minor > 9 {
            return None;
        }
        Some(Self(major * 10 + minor))
    }

    /// The two-digit code as a number.
    pub fn code(self) -> (r: u8)
        ensures
            r == self.spec_code(),
            r < 90,
    {
        proof {
            use_type_invariant(&self);
        }
        self.0
    }

    /// The class of the code.
    pub fn major(self) -> (r: Major)
        ensures
            r == self.spec_major(),
            r.spec_digit() == self.spec_code() / 10,
    {
        proof {
            use_type_invariant(&self);
            lemma_major_digit_round_trip(Major::Interactive, self.0 / 10);
        }
        match Major::from_digit(self.0 / 10) {
            Some(m) => m,
            None => Major::Interactive,
        }
    }

    /// The minor digit.
    pub fn minor(self) -> (r: u8)
        ensures
            r == self.spec_code() % 10,
    {
        self.0 % 10
    }

    /// Only a success carries file data.
    pub fn has_body(self) -> (r: bool)
        ensures
            r == (self.spec_major() == Major::Success),
    {
        self.major().has_body()
    }

    /// The code as two ASCII digits.
    pub fn to_ascii(self) -> (r: [u8; 2])
        ensures
            r@ == seq![(48 + self.spec_code() / 10) as u8, (48 + self.spec_code() % 10) as u8],
    {
        proof {
            use_type_invariant(&self);
        }
        let r = [48 + self.0 / 10, 48 + self.0 % 10];
        assert(r@ =~= seq![(48 + self.spec_code() / 10) as u8, (48 + self.spec_code() % 10) as u8]);
        r
    }

    /// The code as two decimal digits, a leading zero included.
    pub fn to_string(&self) -> (r: String)
        ensures
            r@ == seq![
                digit_char((self.spec_code() / 10) as nat),
                digit_char((self.spec_code() % 10) as nat),
            ],
    {
        proof {
            use_type_invariant(self);
        }
        let mut v: Vec<char> = Vec::new();
        v.push(((self.0 / 10) + 48) as char);
        v.push(((self.0 % 10) + 48) as char);
        assert(v@ =~= seq![
            digit_char((self.spec_code() / 10) as nat),
            digit_char((self.spec_code() % 10) as nat),
        ]);
        string_of(v.as_slice())
    }

    fn leading_parameters(self) -> (r: usize)
        ensures
            r == self.spec_major().spec_leading_parameters(),
    {
        self.major().leading_parameters()
    }
}

/// The fields of a status line's parameter text: the class's leading
/// space-free fields, each up to the next space, then whatever remains as
/// one last field. An empty remainder is no field at all.
pub open spec fn split_fields(leading: nat, rest: Seq<char>) -> Seq<Seq<char>>
    decreases leading,
{
    if leading == 0 {
        if rest.len() == 0 {
            seq![]
        } else {
            seq![rest]
        }
    } else {
        match split_once(rest, ' ') {
            Some((head, tail)) => seq![head] + split_fields((leading - 1) as nat, tail),
            None => if rest.len() == 0 {
                seq![]
            } else {
                seq![rest]
            },
        }
    }
}

/// Fields without the empty ones at the end: a line cannot carry an empty
/// last parameter, since the space before it is all that would show.
pub open spec fn drop_empty_tail(fields: Seq<Seq<char>>) -> Seq<Seq<char>>
    decreases fields.len(),
{
    if fields.len() > 0 && fields.last().len() == 0 {
        drop_empty_tail(fields.drop_last())
    } else {
        fields
    }
}

/// A status line's parameters: its fields, less any empty ones at the end.
pub open spec fn split_leading(leading: nat, rest: Seq<char>) -> Seq<Seq<char>> {
    drop_empty_tail(split_fields(leading, rest))
}

/// What `drop_empty_tail` keeps is a prefix, and ends in a field that is
/// not empty, if in any.
pub proof fn lemma_drop_empty_tail(fields: Seq<Seq<char>>)
    ensures
        drop_empty_tail(fields).len() <= fields.len(),
        drop_empty_tail(fields) == fields.take(drop_empty_tail(fields).len() as int),
        drop_empty_tail(fields).len() == 0 || drop_empty_tail(fields).last().len() > 0,
    decreases fields.len(),
{
    if fields.len() > 0 && fields.last().len() == 0 {
        lemma_drop_empty_tail(fields.drop_last());
        let k = drop_empty_tail(fields.drop_last()).len() as int;
        assert(fields.drop_last().take(k) =~= fields.take(k));
    } else {
        assert(fields.take(fields.len() as int) =~= fields);
    }
}

/// The parameters of a status line whose text after the code is `rest`.
pub open spec fn spec_split_parameters(status: Status, rest: Seq<char>) -> Seq<Seq<char>> {
    if rest.len() == 0 {
        seq![]
    } else {
        split_leading(status.spec_major().spec_leading_parameters(), rest)
    }
}

/// Splits a status line's parameters by its class.
pub fn split_parameters(status: Status, rest: &str) -> (r: Vec<String>)
    ensures
        string_views(r@) == spec_split_parameters(status, rest@),
{
    let chars = chars_of(rest);
    let v = split_parameter_chars(status, chars.as_slice());
    strings_of(&v)
}

fn split_parameter_chars(status: Status, rest: &[char]) -> (r: Vec<Vec<char>>)
    ensures
        views(r@) == spec_split_parameters(status, rest@),
{
    let leading = status.leading_parameters();
    let mut parts: Vec<Vec<char>> = Vec::new();
    if rest.len() == 0 {
        assert(views(parts@) =~= Seq::<Seq<char>>::empty());
        return parts;
    }
    let mut remainder = slice_chars(rest, 0, rest.len());
    assert(remainder@ =~= rest@);
    let mut n: usize = leading;
    let mut stop = false;
    while n > 0 && !stop
        invariant
            n <= leading,
            stop ==> n > 0 && split_once(remainder@, ' ') is None,
            views(parts@) + split_fields(n as nat, remainder@) == split_fields(
                leading as nat,
                rest@,
            ),
        decreases n * 2 + (if stop {
            0usize
        } else {
            1usize
        }),
    {
        match split_once_char(remainder.as_slice(), ' ') {
            Some((head, tail)) => {
                let ghost old_parts = parts@;
                parts.push(head);
                assert(views(parts@) =~= views(old_parts).push(head@));
                assert(views(parts@) + split_fields((n - 1) as nat, tail@) =~= views(old_parts)
                    + split_fields(n as nat, remainder@));
                remainder = tail;
                n = n - 1;
            },
            None => {
                stop = true;
            },
        }
    }
    let ghost before = parts@;
    if remainder.len() > 0 {
        parts.push(remainder);
        assert(views(parts@) =~= views(before).push(remainder@));
    }
    assert(views(parts@) =~= views(before) + split_fields(n as nat, remainder@));
    let ghost fields = views(parts@);
    while parts.len() > 0 && parts[parts.len() - 1].len() == 0
        invariant
            drop_empty_tail(views(parts@)) == drop_empty_tail(fields),
        decreases parts.len(),
    {
        let ghost was = views(parts@);
        parts.pop();
        assert(views(parts@) =~= was.drop_last());
    }
    parts
}


/// The pieces `split_leading` gives: at most one more than the leading
/// count, and none of the leading ones holds a space.
pub open spec fn leading_shape(leading: nat, pieces: Seq<Seq<char>>) -> bool {
    &&& pieces.len() <= leading + 1
    &&& forall|i: int, j: int|
        0 <= i < pieces.len() && i < leading && 0 <= j < pieces[i].len() ==> #[trigger] pieces[i][j]
            != ' '
}

/// What `split_fields` gives has the leading shape.
proof fn lemma_split_fields_shape(leading: nat, rest: Seq<char>)
    ensures
        leading_shape(leading, split_fields(leading, rest)),
    decreases leading,
{
    if leading > 0 {
        crate::text::lemma_find(rest, ' ');
        match split_once(rest, ' ') {
            Some((head, tail)) => {
                lemma_split_fields_shape((leading - 1) as nat, tail);
                let tailp = split_fields((leading - 1) as nat, tail);
                let out = seq![head] + tailp;
                assert forall|i: int, j: int|
                    0 <= i < out.len() && i < leading && 0 <= j < out[i].len() implies #[trigger] out[i][j]
                        != ' ' by {
                    if i == 0 {
                        assert(out[0] == head);
                        assert(head[j] == rest[j]);
                    } else {
                        assert(out[i] == tailp[i - 1]);
                    }
                }
            },
            None => {},
        }
    }
}

/// What `split_leading` gives has the leading shape, and its last field,
/// if any, is not empty.
pub proof fn lemma_split_leading_shape(leading: nat, rest: Seq<char>)
    ensures
        leading_shape(leading, split_leading(leading, rest)),
        split_leading(leading, rest).len() == 0 || split_leading(leading, rest).last().len() > 0,
{
    let fields = split_fields(leading, rest);
    lemma_split_fields_shape(leading, rest);
    lemma_drop_empty_tail(fields);
    let kept = split_leading(leading, rest);
    assert forall|i: int, j: int|
        0 <= i < kept.len() && i < leading && 0 <= j < kept[i].len() implies #[trigger] kept[i][j]
            != ' ' by {
        assert(kept[i] == fields[i]);
    }
}

/// Pieces of the leading shape whose last one is not empty split back into
/// themselves once joined with spaces.
pub proof fn lemma_split_leading_join(leading: nat, pieces: Seq<Seq<char>>)
    requires
        leading_shape(leading, pieces),
        pieces.len() > 0,
        pieces.last().len() > 0,
    ensures
        split_leading(leading, join(pieces, ' ')) == pieces,
{
    lemma_split_fields_join(leading, pieces);
}

/// Pieces of the leading shape whose last one is not empty are the fields
/// of their own join.
proof fn lemma_split_fields_join(leading: nat, pieces: Seq<Seq<char>>)
    requires
        leading_shape(leading, pieces),
        pieces.len() > 0,
        pieces.last().len() > 0,
    ensures
        split_fields(leading, join(pieces, ' ')) == pieces,
    decreases leading,
{
    let joined = join(pieces, ' ');
    if leading == 0 {
        assert(pieces =~= seq![pieces[0]]);
    } else if pieces.len() == 1 {
        assert forall|j: int| 0 <= j < pieces[0].len() implies pieces[0][j] != ' ' by {
            assert(pieces[0][j] != ' ');
        }
        crate::text::lemma_find_none(pieces[0], ' ');
        assert(pieces =~= seq![pieces[0]]);
    } else {
        let rest = pieces.drop_first();
        assert forall|j: int| 0 <= j < pieces[0].len() implies pieces[0][j] != ' ' by {
            assert(pieces[0][j] != ' ');
        }
        assert(leading_shape((leading - 1) as nat, rest)) by {
            assert forall|i: int, j: int|
                0 <= i < rest.len() && i < leading - 1 && 0 <= j < rest[i].len() implies #[trigger] rest[i][j]
                    != ' ' by {
                assert(rest[i] == pieces[i + 1]);
                assert(pieces[i + 1][j] != ' ');
            }
        }
        assert(rest.last() == pieces.last());
        lemma_split_fields_join((leading - 1) as nat, rest);
        let s = pieces[0] + seq![' '] + join(rest, ' ');
        assert(joined == s);
        crate::text::lemma_find_at(s, ' ', pieces[0].len() as int);
        assert(s.take(pieces[0].len() as int) =~= pieces[0]);
        assert(s.skip(pieces[0].len() as int + 1) =~= join(rest, ' '));
        assert(seq![pieces[0]] + rest =~= pieces);
    }
}


/// Pieces whose last one is not empty join into something not empty.
pub proof fn lemma_join_nonempty(pieces: Seq<Seq<char>>)
    requires
        pieces.len() > 0,
        pieces.last().len() > 0,
    ensures
        join(pieces, ' ').len() > 0,
    decreases pieces.len(),
{
    if pieces.len() > 1 {
        lemma_join_nonempty(pieces.drop_first());
    }
}

} // verus!
