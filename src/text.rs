use vstd::prelude::*;

verus! {

/// The strings of a sequence, as a set of their characters.
pub open spec fn string_set(m: Seq<String>) -> Set<Seq<char>> {
    Set::new(|k: Seq<char>| exists|i: int| 0 <= i < m.len() && m[i]@ == k)
}

pub open spec fn strings_unique(m: Seq<String>) -> bool {
    forall|i: int, j: int| 0 <= i < m.len() && 0 <= j < m.len() && i != j ==> m[i]@ != m[j]@
}

pub proof fn lemma_string_set_push(m: Seq<String>, s: String)
    requires
        strings_unique(m),
        !string_set(m).contains(s@),
    ensures
        strings_unique(m.push(s)),
        string_set(m.push(s)) == string_set(m).insert(s@),
{
    let n = m.push(s);
    assert forall|k: Seq<char>| #[trigger] string_set(n).contains(k) == string_set(m).insert(
        s@,
    ).contains(k) by {
        if string_set(m).contains(k) {
            let i = choose|i: int| 0 <= i < m.len() && m[i]@ == k;
            assert(n[i]@ == k);
        }
        if k == s@ {
            assert(n[m.len() as int]@ == k);
        }
    }
    assert forall|i: int, j: int| 0 <= i < n.len() && 0 <= j < n.len() && i != j implies n[i]@
        != n[j]@ by {
        if i == m.len() {
            assert(!(0 <= j < m.len() && m[j]@ == s@));
        } else if j == m.len() {
            assert(!(0 <= i < m.len() && m[i]@ == s@));
        }
    }
    assert(string_set(n) =~= string_set(m).insert(s@));
}

pub proof fn lemma_string_set_remove(m: Seq<String>, i: int)
    requires
        strings_unique(m),
        0 <= i < m.len(),
    ensures
        strings_unique(m.remove(i)),
        string_set(m.remove(i)) == string_set(m).remove(m[i]@),
{
    let n = m.remove(i);
    assert forall|k: Seq<char>| #[trigger] string_set(n).contains(k) == string_set(m).remove(
        m[i]@,
    ).contains(k) by {
        if string_set(m).contains(k) && k != m[i]@ {
            let j = choose|j: int| 0 <= j < m.len() && m[j]@ == k;
            if j < i {
                assert(n[j]@ == k);
            } else {
                assert(n[j - 1]@ == k);
            }
        }
        if string_set(n).contains(k) {
            let j = choose|j: int| 0 <= j < n.len() && n[j]@ == k;
            if j < i {
                assert(m[j]@ == k);
            } else {
                assert(m[j + 1]@ == k);
            }
        }
    }
    assert(string_set(n) =~= string_set(m).remove(m[i]@));
}

/// Finds `s` among `m` by comparing characters.
pub fn find_string(m: &Vec<String>, s: &String) -> (r: Option<usize>)
    ensures
        match r {
            Some(i) => i < m@.len() && m@[i as int]@ == s@,
            None => !string_set(m@).contains(s@),
        },
{
    let mut i: usize = 0;
    while i < m.len()
        invariant
            i <= m@.len(),
            forall|j: int| 0 <= j < i ==> m@[j]@ != s@,
        decreases m@.len() - i,
    {
        if m[i] == *s {
            return Some(i);
        }
        i = i + 1;
    }
    None
}

/// Whether a string holds exactly the characters of a literal.
pub fn same_text(s: &String, lit: &str) -> (r: bool)
    ensures
        r == (s@ == lit@),
{
    let owned = lit.to_owned();
    *s == owned
}

} // verus!
