//! One selectable option of a choice list, and how it is shown.
use vstd::prelude::*;
use vstd::string::*;

verus! {

/// The views of a sequence of owned strings.
pub open spec fn string_views(v: Seq<String>) -> Seq<Seq<char>> {
    v.map_values(|s: String| s@)
}

/// The name shown for an option that has no names.
pub open spec fn unnamed_label() -> Seq<char> {
    seq!['[', 'u', 'n', 'n', 'a', 'm', 'e', 'd', ']']
}

/// Error of a choice list.
#[derive(Clone, Copy, Debug, PartialEq, Eq)]
pub enum ListConstraintError {
    /// The list has no options, so no answer could ever be accepted.
    EmptyList,
}

impl ListConstraintError {
    /// A sentence that describes the error.
    pub fn message(&self) -> (r: String)
        ensures
            r@ == seq![
                'L', 'i', 's', 't', ' ', 'C', 'o', 'n', 's', 't', 'r', 'a', 'i', 'n', 't', ' ',
                'i', 's', ' ', 'e', 'm', 'p', 't', 'y',
            ],
    {
        let r = String::from_str("List Constraint is empty");
        proof {
            reveal_strlit("List Constraint is empty");
        }
        assert(r@ =~= seq![
            'L', 'i', 's', 't', ' ', 'C', 'o', 'n', 's', 't', 'r', 'a', 'i', 'n', 't', ' ',
            'i', 's', ' ', 'e', 'm', 'p', 't', 'y',
        ]);
        r
    }
}

/// One option of a choice list.
///
/// `names[0]` is the option's name; the other names are further strings
/// that select it without being shown. The bulletin, when present, is shown
/// before the name and selects the option too.
pub struct InputOption<Data> {
    /// What is shown before the colon.
    pub bulletin_string: Option<String>,
    /// The shown name, then the alternative names.
    pub names: Vec<String>,
    /// Data carried along for the caller.
    pub extra_data: Data,
}

/// The text shown for an option with bulletin `b` and name `name`: the
/// label is `b: name`, or `name` alone. A default option's whole label is
/// put in brackets, and when a default exists the other labels get one space
/// on each side, to line up with it.
pub open spec fn display_text(b: Option<Seq<char>>, name: Seq<char>, is_default: Option<bool>) -> Seq<
    char,
> {
    match (b, is_default) {
        (Some(b), Some(true)) => seq!['['] + b + seq![':', ' '] + name + seq![']'],
        (Some(b), Some(false)) => seq![' '] + b + seq![':', ' '] + name + seq![' '],
        (None, Some(true)) => seq!['['] + name + seq![']'],
        (None, Some(false)) => seq![' '] + name + seq![' '],
        (Some(b), None) => b + seq![':', ' '] + name,
        (None, None) => name,
    }
}

impl<Data> InputOption<Data> {
    /// The option's name: its first name, or a placeholder when it has none.
    pub open spec fn spec_name(&self) -> Seq<char> {
        if self.names@.len() > 0 {
            self.names@[0]@
        } else {
            unnamed_label()
        }
    }

    /// The names after the first.
    pub open spec fn spec_aliases(&self) -> Seq<Seq<char>> {
        if self.names@.len() > 1 {
            string_views(self.names@.subrange(1, self.names@.len() as int))
        } else {
            Seq::empty()
        }
    }

    /// The bulletin's view.
    pub open spec fn spec_bulletin(&self) -> Option<Seq<char>> {
        match self.bulletin_string {
            Some(b) => Some(b@),
            None => None,
        }
    }

    /// An option with a bulletin.
    pub fn new(bulletin: &str, names: &[&str], data: Data) -> (r: Self)
        ensures
            r.spec_bulletin() == Some(bulletin@),
            string_views(r.names@) == names@.map_values(|s: &str| s@),
            r.extra_data == data,
    {
        InputOption {
            bulletin_string: Some(String::from_str(bulletin)),
            names: owned_strings(names),
            extra_data: data,
        }
    }

    /// An option without a bulletin.
    pub fn new_without_bulletin(names: &[&str], data: Data) -> (r: Self)
        ensures
            r.spec_bulletin() == None::<Seq<char>>,
            string_views(r.names@) == names@.map_values(|s: &str| s@),
            r.extra_data == data,
    {
        InputOption { bulletin_string: None, names: owned_strings(names), extra_data: data }
    }

    /// The option's name: its first name, or `"[unnamed]"` when it has none.
    pub fn get_name(&self) -> (r: &str)
        ensures
            r@ == self.spec_name(),
    {
        if self.names.len() > 0 {
            self.names[0].as_str()
        } else {
            proof {
                reveal_strlit("[unnamed]");
            }
            "[unnamed]"
        }
    }

    /// The line that shows this option in a list; `is_default` tells whether
    /// it is the default, when the list has one.
    pub fn get_display_string(&self, is_default: Option<bool>) -> (r: String)
        ensures
            r@ == display_text(self.spec_bulletin(), self.spec_name(), is_default),
    {
        let name = self.get_name();
        let mut r = String::new();
        proof {
            reveal_strlit("[");
            reveal_strlit(" ");
            reveal_strlit("]");
            reveal_strlit(": ");
        }
        match (&self.bulletin_string, is_default) {
            (Some(b), Some(true)) => {
                r.append("[");
                r.append(b.as_str());
                r.append(": ");
                r.append(name);
                r.append("]");
            },
            (Some(b), Some(false)) => {
                r.append(" ");
                r.append(b.as_str());
                r.append(": ");
                r.append(name);
                r.append(" ");
            },
            (None, Some(true)) => {
                r.append("[");
                r.append(name);
                r.append("]");
            },
            (None, Some(false)) => {
                r.append(" ");
                r.append(name);
                r.append(" ");
            },
            (Some(b), None) => {
                r.append(b.as_str());
                r.append(": ");
                r.append(name);
            },
            (None, None) => {
                r.append(name);
            },
        }
        assert(r@ =~= display_text(self.spec_bulletin(), self.spec_name(), is_default));
        r
    }
}

/// Owned copies of `names`, in order.
pub fn owned_strings(names: &[&str]) -> (r: Vec<String>)
    ensures
        string_views(r@) == names@.map_values(|s: &str| s@),
{
    let mut r: Vec<String> = Vec::new();
    let mut i: usize = 0;
    while i < names.len()
        invariant
            i <= names@.len(),
            r@.len() == i,
            forall|k: int| 0 <= k < i ==> (#[trigger] r@[k])@ == names@[k]@,
        decreases names@.len() - i,
    {
        r.push(String::from_str(names[i]));
        i = i + 1;
    }
    assert(string_views(r@) =~= names@.map_values(|s: &str| s@));
    r
}

/// The character of decimal digit `d`.
pub open spec fn digit_char(d: int) -> char {
    seq!['0', '1', '2', '3', '4', '5', '6', '7', '8', '9'][d]
}

/// The decimal digits of `n`, without leading zeros.
pub open spec fn decimal(n: nat) -> Seq<char>
    decreases n,
{
    if n < 10 {
        seq![digit_char(n as int)]
    } else {
        decimal(n / 10).push(digit_char((n % 10) as int))
    }
}

/// `n` written in decimal.
pub fn decimal_string(n: usize) -> (r: String)
    ensures
        r@ == decimal(n as nat),
    decreases n,
{
    let digits = "0123456789";
    proof {
        reveal_strlit("0123456789");
    }
    let d: usize = n % 10;
    let digit = digits.substring_char(d, d + 1);
    assert(digit@ =~= seq![digit_char(d as int)]);
    if n < 10 {
        String::from_str(digit)
    } else {
        let mut r = decimal_string(n / 10);
        r.append(digit);
        assert(r@ =~= decimal(n as nat));
        r
    }
}

/// Options for a plain list of labels: option `i` is numbered `i + 1` and
/// named by `labels[i]`.
pub fn numbered_options(labels: &[String]) -> (r: Vec<InputOption<()>>)
    ensures
        r@.len() == labels@.len(),
        forall|i: int|
            0 <= i < labels@.len() ==> {
                &&& (#[trigger] r@[i]).spec_bulletin() == Some(decimal((i + 1) as nat))
                &&& string_views(r@[i].names@) == seq![labels@[i]@]
            },
{
    let mut r: Vec<InputOption<()>> = Vec::new();
    let mut i: usize = 0;
    while i < labels.len()
        invariant
            i <= labels@.len(),
            r@.len() == i,
            forall|k: int|
                0 <= k < i ==> {
                    &&& (#[trigger] r@[k]).spec_bulletin() == Some(decimal((k + 1) as nat))
                    &&& string_views(r@[k].names@) == seq![labels@[k]@]
                },
        decreases labels@.len() - i,
    {
        let mut names: Vec<String> = Vec::new();
        names.push(labels[i].clone());
        assert(string_views(names@) =~= seq![labels@[i as int]@]);
        r.push(InputOption { bulletin_string: Some(decimal_string(i + 1)), names, extra_data: () });
        i = i + 1;
    }
    r
}

} // verus!
