use vstd::prelude::*;
use crate::clock::now;
use crate::person::{views, Person, PersonView};
use crate::text::{decimal_text, digit_char, digits_of, integer_text, same_text, texts};

verus! {

/// The sum of the compensations of the records.
pub open spec fn total_compensation(records: Seq<PersonView>) -> int
    decreases records.len(),
{
    if records.len() == 0 {
        0
    } else {
        total_compensation(records.drop_last()) + records.last().compensation
    }
}

/// The titles of the records, in their order.
pub open spec fn titles_of(records: Seq<PersonView>) -> Seq<Seq<char>> {
    records.map_values(|p: PersonView| p.title)
}

/// How often `title` occurs among `titles`.
pub open spec fn count_of(titles: Seq<Seq<char>>, title: Seq<char>) -> nat
    decreases titles.len(),
{
    if titles.len() == 0 {
        0
    } else {
        count_of(titles.drop_last(), title) + if titles.last() == title {
            1nat
        } else {
            0nat
        }
    }
}

/// The titles without repetitions, each where it first occurs.
pub open spec fn first_seen(titles: Seq<Seq<char>>) -> Seq<Seq<char>>
    decreases titles.len(),
{
    if titles.len() == 0 {
        Seq::empty()
    } else {
        let seen = first_seen(titles.drop_last());
        if seen.contains(titles.last()) {
            seen
        } else {
            seen.push(titles.last())
        }
    }
}

/// What the dashboard shows of the team.
#[derive(Debug)]
pub struct TeamSummary {
    /// How many members the team has.
    pub team_count: usize,
    /// The sum of their compensations.
    pub total_cost: i128,
    /// The name of the first member of the list, which is the one who
    /// joined last; empty for an empty list.
    pub latest_member: String,
    /// The titles that occur, each once, in the order of the list.
    pub titles: Vec<String>,
    /// For each of `titles`, how many members have it.
    pub counts: Vec<usize>,
}

impl TeamSummary {
    /// Whether this is the summary of `records`.
    pub open spec fn summarizes(&self, records: Seq<PersonView>) -> bool {
        &&& self.team_count == records.len()
        &&& self.total_cost == total_compensation(records)
        &&& self.latest_member@ == if records.len() > 0 {
            records[0].name
        } else {
            Seq::<char>::empty()
        }
        &&& texts(self.titles@) == first_seen(titles_of(records))
        &&& self.counts@.len() == self.titles@.len()
        &&& forall|j: int|
            0 <= j < self.counts@.len() ==> #[trigger] self.counts@[j] == count_of(
                titles_of(records),
                self.titles@[j]@,
            )
    }
}

/// The sum of the compensations of `n` records lies within `n` times the
/// range of one.
proof fn lemma_total_bounds(records: Seq<PersonView>)
    ensures
        -0x8000_0000 * records.len() <= total_compensation(records) <= 0x7fff_ffff * records.len(),
    decreases records.len(),
{
    if records.len() > 0 {
        lemma_total_bounds(records.drop_last());
    }
}

/// A title that has not been seen does not occur, and one that occurs has
/// been seen.
proof fn lemma_unseen_count(titles: Seq<Seq<char>>, title: Seq<char>)
    ensures
        first_seen(titles).contains(title) <==> count_of(titles, title) > 0,
    decreases titles.len(),
{
    if titles.len() > 0 {
        let front = titles.drop_last();
        lemma_unseen_count(front, title);
        let seen = first_seen(front);
        if !seen.contains(titles.last()) {
            let more = seen.push(titles.last());
            assert(more[more.len() - 1] == titles.last());
            if seen.contains(title) {
                let k = choose|k: int| 0 <= k < seen.len() && seen[k] == title;
                assert(more[k] == title);
            }
        }
    }
}

/// No title is seen twice.
proof fn lemma_first_seen_distinct(titles: Seq<Seq<char>>)
    ensures
        forall|i: int, j: int|
            0 <= i < j < first_seen(titles).len() ==> first_seen(titles)[i] != first_seen(
                titles,
            )[j],
    decreases titles.len(),
{
    if titles.len() > 0 {
        lemma_first_seen_distinct(titles.drop_last());
        let seen = first_seen(titles.drop_last());
        let all = first_seen(titles);
        assert forall|i: int, j: int| 0 <= i < j < all.len() implies all[i] != all[j] by {
            if j < seen.len() {
                assert(all[i] == seen[i] && all[j] == seen[j]);
            } else {
                assert(all[i] == seen[i]);
                assert(all[j] == titles.last());
                assert(!seen.contains(titles.last()));
            }
        }
    }
}

/// No title occurs more often than there are titles.
proof fn lemma_count_bound(titles: Seq<Seq<char>>, title: Seq<char>)
    ensures
        count_of(titles, title) <= titles.len(),
    decreases titles.len(),
{
    if titles.len() > 0 {
        lemma_count_bound(titles.drop_last(), title);
    }
}

/// Sums up a list of members for the dashboard.
pub fn summarize(persons: &Vec<Person>) -> (summary: TeamSummary)
    ensures
        summary.summarizes(views(persons@)),
{
    let ghost records = views(persons@);
    let mut total_cost: i128 = 0;
    let mut titles: Vec<String> = Vec::new();
    let mut counts: Vec<usize> = Vec::new();
    let mut i: usize = 0;
    assert(records.subrange(0, 0) =~= Seq::<PersonView>::empty());
    assert(texts(titles@) =~= first_seen(titles_of(records.subrange(0, 0))));
    while i < persons.len()
        invariant
            records == views(persons@),
            i <= persons@.len(),
            total_cost == total_compensation(records.subrange(0, i as int)),
            texts(titles@) == first_seen(titles_of(records.subrange(0, i as int))),
            counts@.len() == titles@.len(),
            forall|j: int|
                0 <= j < counts@.len() ==> #[trigger] counts@[j] == count_of(
                    titles_of(records.subrange(0, i as int)),
                    titles@[j]@,
                ),
        decreases persons@.len() - i,
    {
        let person = &persons[i];
        let ghost before = records.subrange(0, i as int);
        let ghost after = records.subrange(0, i + 1);
        let ghost title = person.title@;
        proof {
            assert(after.drop_last() =~= before);
            assert(after.last() == person@);
            assert(titles_of(after).drop_last() =~= titles_of(before));
            assert(titles_of(after).last() == title);
            lemma_total_bounds(before);
            assert(before.len() == i);
        }
        total_cost = total_cost + person.compensation as i128;

        let mut k: usize = 0;
        while k < titles.len() && !(titles[k] == person.title)
            invariant
                k <= titles@.len(),
                title == person.title@,
                forall|j: int| 0 <= j < k ==> (#[trigger] texts(titles@)[j]) != title,
            decreases titles@.len() - k,
        {
            k += 1;
        }
        let ghost seen = texts(titles@);
        let ghost old_titles = titles@;
        let ghost old_counts = counts@;
        if k < titles.len() {
            proof {
                assert(seen[k as int] == title);
                assert(seen.contains(title));
                lemma_count_bound(titles_of(before), title);
                lemma_first_seen_distinct(titles_of(before));
            }
            let n: usize = counts[k];
            counts.set(k, n + 1);
        } else {
            proof {
                assert(!seen.contains(title)) by {
                    if seen.contains(title) {
                        let j = choose|j: int| 0 <= j < seen.len() && seen[j] == title;
                        assert(texts(titles@)[j] != title);
                    }
                }
                lemma_unseen_count(titles_of(before), title);
                assert(texts(titles@.push(person.title)) =~= seen.push(title));
            }
            titles.push(person.title.clone());
            counts.push(1);
        }
        proof {
            assert forall|j: int| 0 <= j < counts@.len() implies #[trigger] counts@[j] == count_of(
                titles_of(after),
                titles@[j]@,
            ) by {
                if j < old_counts.len() {
                    assert(titles@[j] == old_titles[j]);
                    assert(old_counts[j] == count_of(titles_of(before), old_titles[j]@));
                    assert(seen[j] == old_titles[j]@);
                    if k < old_titles.len() && j != k {
                        assert(seen[j] != seen[k as int]);
                    }
                }
            }
        }
        i += 1;
    }
    assert(records.subrange(0, i as int) =~= records);
    let latest_member = if persons.len() > 0 {
        persons[0].name.clone()
    } else {
        String::new()
    };
    TeamSummary { team_count: persons.len(), total_cost, latest_member, titles, counts }
}

/// The digits of a number in groups of three from the right, with a comma
/// between the groups.
pub open spec fn grouped_digits(n: nat) -> Seq<char>
    decreases n,
{
    if n < 1000 {
        digits_of(n)
    } else {
        grouped_digits(n / 1000) + seq![
            ',',
            digit_char((n / 100 % 10) as int),
            digit_char((n / 10 % 10) as int),
            digit_char((n % 10) as int),
        ]
    }
}

/// An integer with its digits in groups of three, behind a `-` if it is
/// negative.
pub open spec fn grouped_text(i: int) -> Seq<char> {
    if i < 0 {
        seq!['-'] + grouped_digits((-i) as nat)
    } else {
        grouped_digits(i as nat)
    }
}

/// Writes an integer the way English does. Calls
/// `num_format::Buffer::write_formatted` with `num_format::Locale::en`,
/// whose separator is a comma, whose groups are of three digits and whose
/// minus sign is `-`, and copies the buffer's text.
#[verifier::external_body]
fn grouped(amount: i128) -> (text: String)
    ensures
        text@ == grouped_text(amount as int),
{
    let mut buffer = num_format::Buffer::default();
    buffer.write_formatted(&amount, &num_format::Locale::en);
    String::from(buffer.as_str())
}

/// The team's cost as the dashboard shows it: a dollar sign, then the
/// amount with its digits in groups of three.
pub fn cost_text(total_cost: i128) -> (text: String)
    ensures
        text@ == seq!['$'] + grouped_text(total_cost as int),
{
    proof {
        reveal_strlit("$");
    }
    let amount = grouped(total_cost);
    let text = String::from_str("$").concat(amount.as_str());
    assert(text@ =~= seq!['$'] + grouped_text(total_cost as int));
    text
}

/// The English name of a month, by its number from 1 to 12.
pub open spec fn month_text(month: int) -> Seq<char> {
    if month == 1 {
        "January"@
    } else if month == 2 {
        "February"@
    } else if month == 3 {
        "March"@
    } else if month == 4 {
        "April"@
    } else if month == 5 {
        "May"@
    } else if month == 6 {
        "June"@
    } else if month == 7 {
        "July"@
    } else if month == 8 {
        "August"@
    } else if month == 9 {
        "September"@
    } else if month == 10 {
        "October"@
    } else if month == 11 {
        "November"@
    } else {
        "December"@
    }
}

/// What the dashboard's heading shows for a month of a year: the month's
/// name, a comma and a space, and the year.
pub open spec fn date_text(month: int, year: int) -> Seq<char> {
    month_text(month) + seq![',', ' '] + decimal_text(year)
}

/// The name of a month. Calls `chrono::Month::try_from` on the number,
/// which gives `January` for 1 up to `December` for 12 and fails on any
/// other number, and writes the variant as `Debug` does: by its name.
#[verifier::external_body]
fn month_name(month: u8) -> (name: String)
    requires
        1 <= month <= 12,
    ensures
        name@ == month_text(month as int),
{
    format!("{:?}", chrono::Month::try_from(month).unwrap())
}

/// The heading's date for a month, from 1 to 12, of a year.
pub fn display_date(month: u8, year: i32) -> (text: String)
    requires
        1 <= month <= 12,
    ensures
        text@ == date_text(month as int, year as int),
{
    proof {
        reveal_strlit(", ");
    }
    let year_text = integer_text(year);
    let text = month_name(month).concat(", ").concat(year_text.as_str());
    assert(text@ =~= date_text(month as int, year as int));
    text
}

/// The heading's date for the present moment.
pub fn current_display_date() -> (text: String)
    ensures
        exists|month: int, year: int| 1 <= month <= 12 && text@ == date_text(month, year),
{
    let today = now();
    display_date(today.month, today.year)
}

/// How a link of the navigation bar looks.
pub const INPUT_STYLE: &'static str =
    "border-b-0 border-[#7734e7] h-8 text-white ml-4 mr-4 hover:border-b-2";

/// How the link to the page that is shown looks.
pub const INPUT_STYLE_SELECTED: &'static str =
    "border-b-2 border-[#9734e7] h-8 text-white ml-4 mr-4 hover:border-b-2";

/// The look of the link to `match_url` while the page at `url` is shown.
pub fn get_style_from_url(url: &str, match_url: &str) -> (style: &'static str)
    ensures
        style@ == if url@ == match_url@ {
            INPUT_STYLE_SELECTED@
        } else {
            INPUT_STYLE@
        },
{
    if same_text(url, match_url) {
        return INPUT_STYLE_SELECTED;
    }
    INPUT_STYLE
}

} // verus!
