//! The contact directory: the phone numbers of each contact name, and the
//! numbers that never had a name.

use vstd::prelude::*;
use crate::model::{contacts_view, PhoneNumber};
use crate::text::{chars_of, string_of};
use crate::tree::same_text;

verus! {

broadcast use vstd::string::group_string_axioms;

/// `a` comes strictly before `b` in lexicographic order of code points,
/// the order of `str`'s `Ord`.
pub open spec fn text_less(a: Seq<char>, b: Seq<char>) -> bool
    decreases a.len(),
{
    if a.len() == 0 {
        b.len() > 0
    } else if b.len() == 0 {
        false
    } else if a[0] != b[0] {
        a[0] < b[0]
    } else {
        text_less(a.drop_first(), b.drop_first())
    }
}

pub proof fn lemma_text_less_total(a: Seq<char>, b: Seq<char>)
    ensures
        a != b ==> text_less(a, b) || text_less(b, a),
        text_less(a, b) ==> !text_less(b, a) && a != b,
    decreases a.len(),
{
    if a.len() > 0 && b.len() > 0 && a[0] == b[0] {
        lemma_text_less_total(a.drop_first(), b.drop_first());
        if a != b {
            assert(a.drop_first() != b.drop_first()) by {
                if a.drop_first() == b.drop_first() {
                    assert(a =~= seq![a[0]] + a.drop_first());
                    assert(b =~= seq![b[0]] + b.drop_first());
                }
            }
        }
    } else if a.len() == 0 && b.len() == 0 {
        assert(a =~= b);
    }
}

/// Whether `a` comes strictly before `b`.
pub fn less_text(a: &str, b: &str) -> (r: bool)
    ensures
        r == text_less(a@, b@),
{
    let x = chars_of(a);
    let y = chars_of(b);
    let mut i: usize = 0;
    assert(x@.subrange(0, x.len() as int) =~= x@);
    assert(y@.subrange(0, y.len() as int) =~= y@);
    while i < x.len() && i < y.len()
        invariant
            x@ == a@,
            y@ == b@,
            i <= x.len(),
            i <= y.len(),
            text_less(a@, b@) == text_less(
                x@.subrange(i as int, x.len() as int),
                y@.subrange(i as int, y.len() as int),
            ),
        decreases x.len() - i,
    {
        let ghost xs = x@.subrange(i as int, x.len() as int);
        let ghost ys = y@.subrange(i as int, y.len() as int);
        assert(xs[0] == x@[i as int] && ys[0] == y@[i as int]);
        if x[i] != y[i] {
            return x[i] < y[i];
        }
        assert(xs.drop_first() =~= x@.subrange(i + 1, x.len() as int));
        assert(ys.drop_first() =~= y@.subrange(i + 1, y.len() as int));
        i = i + 1;
    }
    let ghost xs = x@.subrange(i as int, x.len() as int);
    let ghost ys = y@.subrange(i as int, y.len() as int);
    i == x.len() && i < y.len()
}

/// Each element comes strictly before the next.
pub open spec fn strictly_sorted(s: Seq<Seq<char>>) -> bool {
    forall|i: int| 0 <= i < s.len() - 1 ==> text_less(#[trigger] s[i], s[i + 1])
}

/// The numbers of `v`, as text.
pub open spec fn numbers_view(v: Seq<PhoneNumber>) -> Seq<Seq<char>> {
    v.map_values(|p: PhoneNumber| p.0@)
}

/// Adds `number` to the strictly sorted `numbers`, where it is not there
/// yet.
fn insert_number(numbers: &mut Vec<PhoneNumber>, number: &PhoneNumber)
    requires
        strictly_sorted(numbers_view(old(numbers)@)),
    ensures
        strictly_sorted(numbers_view(final(numbers)@)),
        forall|t: Seq<char>|
            numbers_view(final(numbers)@).contains(t) <==> (numbers_view(old(numbers)@).contains(t)
                || t == number.0@),
{
    let ghost before = numbers_view(numbers@);
    let mut p: usize = 0;
    while p < numbers.len() && less_text(numbers[p].0.as_str(), number.0.as_str())
        invariant
            p <= numbers.len(),
            numbers@ == old(numbers)@,
            before == numbers_view(numbers@),
            strictly_sorted(before),
            forall|k: int| 0 <= k < p ==> text_less(#[trigger] before[k], number.0@),
        decreases numbers.len() - p,
    {
        p = p + 1;
    }
    if p < numbers.len() && numbers[p].0 == number.0 {
        assert(before[p as int] == number.0@);
        return;
    }
    proof {
        if p < numbers.len() {
            lemma_text_less_total(before[p as int], number.0@);
        }
    }
    numbers.insert(p, PhoneNumber(number.0.clone()));
    proof {
        let after = numbers_view(numbers@);
        assert(after =~= before.insert(p as int, number.0@));
        assert forall|i: int| 0 <= i < after.len() - 1 implies text_less(#[trigger] after[i], after[i + 1]) by {
            if i + 1 < p {
            } else if i + 1 == p {
            } else if i == p {
            } else {
                assert(after[i] == before[i - 1]);
            }
        }
        assert forall|t: Seq<char>| after.contains(t) <==> (before.contains(t) || t == number.0@) by {
            if after.contains(t) {
                let k = choose|k: int| 0 <= k < after.len() && after[k] == t;
                if k < p {
                    assert(before[k] == t);
                } else if k > p {
                    assert(before[k - 1] == t);
                }
            }
            if before.contains(t) {
                let k = choose|k: int| 0 <= k < before.len() && before[k] == t;
                if k < p {
                    assert(after[k] == t);
                } else {
                    assert(after[k + 1] == t);
                }
            }
            if t == number.0@ {
                assert(after[p as int] == t);
            }
        }
    }
}

/// A contact name with its phone numbers.
#[derive(Debug, PartialEq, Eq)]
pub struct NamedContact {
    pub name: String,
    /// The numbers, in increasing order.
    pub numbers: Vec<PhoneNumber>,
}

/// Contacts by name, and the numbers that never had a name.
#[derive(Debug, PartialEq, Eq)]
pub struct ContactDirectory {
    /// The contacts, in increasing order of name.
    pub named: Vec<NamedContact>,
    /// The numbers whose only name is the placeholder `(Unknown)`, in
    /// increasing order.
    pub unnamed: Vec<PhoneNumber>,
}

/// The names of `v`, as text.
pub open spec fn names_view(v: Seq<NamedContact>) -> Seq<Seq<char>> {
    v.map_values(|c: NamedContact| c.name@)
}

/// Names in increasing order, each with at least one number and its
/// numbers in increasing order.
pub open spec fn directory_sorted(named: Seq<NamedContact>) -> bool {
    &&& strictly_sorted(names_view(named))
    &&& forall|i: int| 0 <= i < named.len() ==> (#[trigger] named[i]).numbers@.len() > 0
    &&& forall|i: int| 0 <= i < named.len() ==> strictly_sorted(numbers_view(#[trigger] named[i].numbers@))
}

/// `named` lists `number` under `name`.
pub open spec fn directory_has(named: Seq<NamedContact>, name: Seq<char>, number: Seq<char>) -> bool {
    exists|i: int|
        0 <= i < named.len() && #[trigger] named[i].name@ == name && numbers_view(
            named[i].numbers@,
        ).contains(number)
}

/// Adds `number` under `name`.
fn add_named(named: &mut Vec<NamedContact>, name: &String, number: &PhoneNumber)
    requires
        directory_sorted(old(named)@),
    ensures
        directory_sorted(final(named)@),
        forall|n: Seq<char>, p: Seq<char>|
            directory_has(final(named)@, n, p) <==> (directory_has(old(named)@, n, p) || (n
                == name@ && p == number.0@)),
{
    let ghost before = named@;
    let ghost names = names_view(named@);
    let mut p: usize = 0;
    while p < named.len() && less_text(named[p].name.as_str(), name.as_str())
        invariant
            p <= named.len(),
            named@ == before,
            names == names_view(before),
            directory_sorted(before),
            forall|k: int| 0 <= k < p ==> text_less(#[trigger] names[k], name@),
        decreases named.len() - p,
    {
        p = p + 1;
    }
    if p < named.len() && named[p].name == *name {
        let ghost old_numbers = named@[p as int].numbers@;
        insert_number(&mut named[p].numbers, number);
        proof {
            let after = named@;
            assert forall|i: int| 0 <= i < after.len() && i != p implies after[i] == before[i] by {}
            assert(names_view(after) =~= names);
            assert(numbers_view(after[p as int].numbers@).contains(number.0@));
            assert forall|i: int| 0 <= i < after.len() implies (#[trigger] after[i]).numbers@.len()
                > 0 by {
                if i != p {
                    assert(after[i] == before[i]);
                } else {
                    assert(numbers_view(after[i].numbers@).len() > 0);
                }
            }
            assert forall|i: int| 0 <= i < after.len() implies strictly_sorted(
                numbers_view(#[trigger] after[i].numbers@),
            ) by {
                if i != p {
                    assert(after[i] == before[i]);
                }
            }
            assert forall|n: Seq<char>, q: Seq<char>|
                directory_has(after, n, q) <==> (directory_has(before, n, q) || (n == name@ && q
                    == number.0@)) by {
                if directory_has(after, n, q) {
                    let i = choose|i: int|
                        0 <= i < after.len() && #[trigger] after[i].name@ == n && numbers_view(
                            after[i].numbers@,
                        ).contains(q);
                    if i != p {
                        assert(before[i] == after[i]);
                    } else if q != number.0@ {
                        assert(before[i].name@ == n);
                    }
                }
                if directory_has(before, n, q) {
                    let i = choose|i: int|
                        0 <= i < before.len() && #[trigger] before[i].name@ == n && numbers_view(
                            before[i].numbers@,
                        ).contains(q);
                    if i != p {
                        assert(before[i] == after[i]);
                    } else {
                        assert(after[i].name@ == n);
                    }
                }
                if n == name@ && q == number.0@ {
                    assert(after[p as int].name@ == n);
                }
            }
        }
        return;
    }
    proof {
        if p < named.len() {
            lemma_text_less_total(names[p as int], name@);
        }
    }
    let mut numbers: Vec<PhoneNumber> = Vec::new();
    numbers.push(PhoneNumber(number.0.clone()));
    let entry = NamedContact { name: name.clone(), numbers };
    let ghost entry_view = entry;
    named.insert(p, entry);
    proof {
        let after = named@;
        assert(after =~= before.insert(p as int, entry_view));
        assert(numbers_view(entry_view.numbers@) =~= seq![number.0@]);
        assert(names_view(after) =~= names.insert(p as int, name@));
        let an = names_view(after);
        assert forall|i: int| 0 <= i < an.len() - 1 implies text_less(#[trigger] an[i], an[i + 1]) by {
            if i + 1 < p {
            } else if i + 1 == p {
            } else if i == p {
            } else {
                assert(an[i] == names[i - 1]);
            }
        }
        assert forall|i: int| 0 <= i < after.len() implies strictly_sorted(
            numbers_view(#[trigger] after[i].numbers@),
        ) by {
            if i < p {
                assert(after[i] == before[i]);
            } else if i > p {
                assert(after[i] == before[i - 1]);
            }
        }
        assert forall|n: Seq<char>, q: Seq<char>|
            directory_has(after, n, q) <==> (directory_has(before, n, q) || (n == name@ && q
                == number.0@)) by {
            if directory_has(after, n, q) {
                let i = choose|i: int|
                    0 <= i < after.len() && #[trigger] after[i].name@ == n && numbers_view(
                        after[i].numbers@,
                    ).contains(q);
                if i < p {
                    assert(before[i] == after[i]);
                } else if i > p {
                    assert(before[i - 1] == after[i]);
                } else {
                    assert(numbers_view(after[i].numbers@)[0] == number.0@);
                }
            }
            if directory_has(before, n, q) {
                let i = choose|i: int|
                    0 <= i < before.len() && #[trigger] before[i].name@ == n && numbers_view(
                        before[i].numbers@,
                    ).contains(q);
                if i < p {
                    assert(after[i] == before[i]);
                } else {
                    assert(after[i + 1] == before[i]);
                }
            }
            if n == name@ && q == number.0@ {
                assert(after[p as int].name@ == n);
                assert(numbers_view(after[p as int].numbers@)[0] == q);
            }
        }
    }
}

/// The placeholder that the backup gives for a number without a contact.
pub open spec fn is_placeholder(name: Seq<char>) -> bool {
    name == "(Unknown)"@
}

/// Some entry of `contacts` gives `number` the name `name`, which is not
/// the placeholder.
pub open spec fn gives_name(
    contacts: Seq<(Seq<char>, Seq<Seq<char>>)>,
    name: Seq<char>,
    number: Seq<char>,
) -> bool {
    !is_placeholder(name) && exists|k: int|
        0 <= k < contacts.len() && #[trigger] contacts[k].0 == number && contacts[k].1.contains(name)
}

/// Some entry of `contacts` gives `number` no name but the placeholder.
pub open spec fn lacks_name(contacts: Seq<(Seq<char>, Seq<Seq<char>>)>, number: Seq<char>) -> bool {
    exists|k: int|
        0 <= k < contacts.len() && #[trigger] contacts[k].0 == number && forall|a: int|
            0 <= a < contacts[k].1.len() ==> is_placeholder(#[trigger] contacts[k].1[a])
}

proof fn lemma_gives_name_step(cv: Seq<(Seq<char>, Seq<Seq<char>>)>, k: int, n: Seq<char>, p: Seq<char>)
    requires
        0 <= k < cv.len(),
    ensures
        gives_name(cv.subrange(0, k + 1), n, p) == (gives_name(cv.subrange(0, k), n, p) || (
        !is_placeholder(n) && cv[k].0 == p && cv[k].1.contains(n))),
{
    let a = cv.subrange(0, k + 1);
    let b = cv.subrange(0, k);
    if gives_name(a, n, p) {
        let i = choose|i: int| 0 <= i < a.len() && #[trigger] a[i].0 == p && a[i].1.contains(n);
        if i < k {
            assert(b[i] == a[i]);
        }
    }
    if gives_name(b, n, p) {
        let i = choose|i: int| 0 <= i < b.len() && #[trigger] b[i].0 == p && b[i].1.contains(n);
        assert(a[i] == b[i]);
    }
    if !is_placeholder(n) && cv[k].0 == p && cv[k].1.contains(n) {
        assert(a[k] == cv[k]);
    }
}

proof fn lemma_lacks_name_step(cv: Seq<(Seq<char>, Seq<Seq<char>>)>, k: int, p: Seq<char>)
    requires
        0 <= k < cv.len(),
    ensures
        lacks_name(cv.subrange(0, k + 1), p) == (lacks_name(cv.subrange(0, k), p) || (cv[k].0 == p
            && forall|a: int| 0 <= a < cv[k].1.len() ==> is_placeholder(#[trigger] cv[k].1[a]))),
{
    let a = cv.subrange(0, k + 1);
    let b = cv.subrange(0, k);
    if lacks_name(a, p) {
        let i = choose|i: int|
            0 <= i < a.len() && #[trigger] a[i].0 == p && forall|x: int|
                0 <= x < a[i].1.len() ==> is_placeholder(#[trigger] a[i].1[x]);
        if i < k {
            assert(b[i] == a[i]);
        }
    }
    if lacks_name(b, p) {
        let i = choose|i: int|
            0 <= i < b.len() && #[trigger] b[i].0 == p && forall|x: int|
                0 <= x < b[i].1.len() ==> is_placeholder(#[trigger] b[i].1[x]);
        assert(a[i] == b[i]);
    }
    if cv[k].0 == p && forall|x: int| 0 <= x < cv[k].1.len() ==> is_placeholder(#[trigger] cv[k].1[x]) {
        assert(a[k] == cv[k]);
    }
}

/// Sorts the numbers of `contacts` by contact name: each name other than
/// the placeholder `(Unknown)` with the numbers that it was given, and
/// apart from them the numbers that were given no other name.
pub fn contact_directory(contacts: &Vec<(PhoneNumber, Vec<String>)>) -> (r: ContactDirectory)
    ensures
        directory_sorted(r.named@),
        strictly_sorted(numbers_view(r.unnamed@)),
        forall|n: Seq<char>, p: Seq<char>|
            directory_has(r.named@, n, p) <==> gives_name(contacts_view(contacts@), n, p),
        forall|p: Seq<char>|
            numbers_view(r.unnamed@).contains(p) <==> lacks_name(contacts_view(contacts@), p),
{
    let ghost cv = contacts_view(contacts@);
    let mut named: Vec<NamedContact> = Vec::new();
    let mut unnamed: Vec<PhoneNumber> = Vec::new();
    let mut k: usize = 0;
    proof {
        reveal_strlit("(Unknown)");
    }
    while k < contacts.len()
        invariant
            k <= contacts.len(),
            cv == contacts_view(contacts@),
            directory_sorted(named@),
            strictly_sorted(numbers_view(unnamed@)),
            forall|n: Seq<char>, p: Seq<char>|
                directory_has(named@, n, p) <==> gives_name(cv.subrange(0, k as int), n, p),
            forall|p: Seq<char>|
                numbers_view(unnamed@).contains(p) <==> lacks_name(cv.subrange(0, k as int), p),
        decreases contacts.len() - k,
    {
        let number = &contacts[k].0;
        let names = &contacts[k].1;
        let ghost entry = cv[k as int];
        assert(entry.0 == number.0@);
        assert(entry.1 == names@.map_values(|n: String| n@));
        let mut found = false;
        let mut j: usize = 0;
        while j < names.len()
            invariant
                k < contacts.len(),
                names == &contacts@[k as int].1,
                number == &contacts@[k as int].0,
                entry == cv[k as int],
                entry.0 == number.0@,
                entry.1 == names@.map_values(|n: String| n@),
                j <= names.len(),
                directory_sorted(named@),
                found == exists|a: int| 0 <= a < j && !is_placeholder(#[trigger] entry.1[a]),
                forall|n: Seq<char>, p: Seq<char>|
                    directory_has(named@, n, p) <==> (gives_name(cv.subrange(0, k as int), n, p) || (
                    p == entry.0 && !is_placeholder(n) && exists|a: int|
                        0 <= a < j && #[trigger] entry.1[a] == n)),
            decreases names.len() - j,
        {
            assert(entry.1[j as int] == names@[j as int]@);
            if !same_text(names[j].as_str(), "(Unknown)") {
                let ghost old_named = named@;
                add_named(&mut named, &names[j], number);
                found = true;
                proof {
                    assert forall|n: Seq<char>, p: Seq<char>|
                        directory_has(named@, n, p) <==> (gives_name(cv.subrange(0, k as int), n, p)
                            || (p == entry.0 && !is_placeholder(n) && exists|a: int|
                            0 <= a < j + 1 && #[trigger] entry.1[a] == n)) by {
                        if p == entry.0 && !is_placeholder(n) && exists|a: int|
                            0 <= a < j + 1 && #[trigger] entry.1[a] == n {
                            let a = choose|a: int| 0 <= a < j + 1 && #[trigger] entry.1[a] == n;
                            if a < j {
                                assert(directory_has(old_named, n, p));
                            }
                        }
                    }
                }
            } else {
                proof {
                    assert forall|n: Seq<char>, p: Seq<char>|
                        directory_has(named@, n, p) <==> (gives_name(cv.subrange(0, k as int), n, p)
                            || (p == entry.0 && !is_placeholder(n) && exists|a: int|
                            0 <= a < j + 1 && #[trigger] entry.1[a] == n)) by {
                        if p == entry.0 && !is_placeholder(n) && exists|a: int|
                            0 <= a < j + 1 && #[trigger] entry.1[a] == n {
                            let a = choose|a: int| 0 <= a < j + 1 && #[trigger] entry.1[a] == n;
                            assert(a < j);
                        }
                    }
                }
            }
            j = j + 1;
        }
        proof {
            assert forall|n: Seq<char>, p: Seq<char>|
                directory_has(named@, n, p) <==> gives_name(cv.subrange(0, k + 1), n, p) by {
                lemma_gives_name_step(cv, k as int, n, p);
                if entry.1.contains(n) {
                    let a = choose|a: int| 0 <= a < entry.1.len() && entry.1[a] == n;
                    assert(entry.1[a] == n);
                }
            }
        }
        if !found {
            let ghost old_unnamed = numbers_view(unnamed@);
            insert_number(&mut unnamed, number);
            proof {
                assert forall|p: Seq<char>|
                    numbers_view(unnamed@).contains(p) <==> lacks_name(cv.subrange(0, k + 1), p) by {
                    lemma_lacks_name_step(cv, k as int, p);
                    assert forall|a: int| 0 <= a < entry.1.len() implies is_placeholder(
                        #[trigger] entry.1[a],
                    ) by {}
                }
            }
        } else {
            proof {
                assert forall|p: Seq<char>|
                    numbers_view(unnamed@).contains(p) <==> lacks_name(cv.subrange(0, k + 1), p) by {
                    lemma_lacks_name_step(cv, k as int, p);
                    let a = choose|a: int| 0 <= a < names.len() && !is_placeholder(#[trigger] entry.1[a]);
                    assert(!is_placeholder(entry.1[a]));
                }
            }
        }
        k = k + 1;
    }
    assert(cv.subrange(0, k as int) =~= cv);
    ContactDirectory { named, unnamed }
}

/// `text` set in bold and underlined with ANSI terminal escapes.
pub fn bold_underline(text: &str) -> (r: String)
    ensures
        r@ == "\u{1B}[1;4m"@ + text@ + "\u{1B}[0m"@,
{
    let mut out = chars_of("\u{1B}[1;4m");
    let mut middle = chars_of(text);
    out.append(&mut middle);
    let mut end = chars_of("\u{1B}[0m");
    out.append(&mut end);
    string_of(&out)
}

} // verus!
