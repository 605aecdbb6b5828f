//! The countries that a dashboard can be chosen for.

use vstd::prelude::*;
use crate::text::text_is;

verus! {

#[derive(Clone, Copy, PartialEq, Eq, Structural, Debug)]
pub enum Country {
    Australia,
    Usa,
    China,
    Japan,
    India,
    Uk,
    Germany,
    Canada,
    Russia,
    SouthKorea,
}

impl Country {
    /// The countries, in the order in which they are offered.
    pub open spec fn listed() -> Seq<Country> {
        seq![
            Country::Australia,
            Country::Usa,
            Country::China,
            Country::Japan,
            Country::India,
            Country::Uk,
            Country::Germany,
            Country::Canada,
            Country::Russia,
            Country::SouthKorea,
        ]
    }

    /// The name of a country.
    pub open spec fn called(self) -> Seq<char> {
        match self {
            Country::Australia => "Australia"@,
            Country::Usa => "USA"@,
            Country::China => "China"@,
            Country::Japan => "Japan"@,
            Country::India => "India"@,
            Country::Uk => "United Kingdom"@,
            Country::Germany => "Germany"@,
            Country::Canada => "Canada"@,
            Country::Russia => "Russia"@,
            Country::SouthKorea => "South Korea"@,
        }
    }

    /// All countries, in the order in which they are offered.
    pub fn all() -> (r: Vec<Country>)
        ensures
            r@ == Country::listed(),
    {
        let r = vec![
            Country::Australia,
            Country::Usa,
            Country::China,
            Country::Japan,
            Country::India,
            Country::Uk,
            Country::Germany,
            Country::Canada,
            Country::Russia,
            Country::SouthKorea,
        ];
        assert(r@ =~= Country::listed());
        r
    }

    /// The name that is shown for a country and stored for it.
    pub fn name(&self) -> (r: &'static str)
        ensures
            r@ == self.called(),
    {
        match self {
            Country::Australia => "Australia",
            Country::Usa => "USA",
            Country::China => "China",
            Country::Japan => "Japan",
            Country::India => "India",
            Country::Uk => "United Kingdom",
            Country::Germany => "Germany",
            Country::Canada => "Canada",
            Country::Russia => "Russia",
            Country::SouthKorea => "South Korea",
        }
    }

    /// The first of some countries with that name; Australia where none has it.
    pub open spec fn named_in(countries: Seq<Country>, name: Seq<char>) -> Country
        decreases countries.len(),
    {
        if countries.len() == 0 {
            Country::Australia
        } else if countries[0].called() == name {
            countries[0]
        } else {
            Country::named_in(countries.skip(1), name)
        }
    }

    /// The country of that name; Australia where none has it.
    pub open spec fn named(name: Seq<char>) -> Country {
        Country::named_in(Country::listed(), name)
    }

    /// The country of that name; Australia where none has it.
    pub fn from_name(name: &str) -> (r: Country)
        ensures
            r == Country::named(name@),
            r.called() == name@ || (r == Country::Australia && forall|c: Country|
                c.called() != name@),
    {
        let all = Country::all();
        let n: usize = all.len();
        assert(all@.skip(0) =~= all@);
        for i in 0..n
            invariant
                n == all@.len(),
                all@ == Country::listed(),
                Country::named(name@) == Country::named_in(all@.skip(i as int), name@),
                forall|j: int| 0 <= j < i ==> (#[trigger] all@[j]).called() != name@,
        {
            assert(all@.skip(i as int)[0] == all@[i as int]);
            assert(all@.skip(i as int).skip(1) =~= all@.skip(i + 1));
            if text_is(all[i].name(), name) {
                return all[i];
            }
        }
        assert forall|c: Country| c.called() != name@ by {
            Country::is_listed(c);
            let j = choose|j: int| 0 <= j < Country::listed().len() && Country::listed()[j] == c;
            assert(all@[j] == c);
        }
        Country::Australia
    }

    /// The currency pair of the country's dashboard. There is one dashboard so far, and it is
    /// Australia's.
    pub fn fx_symbol(&self) -> (r: &'static str)
        ensures
            r@ == "AUDUSD"@,
    {
        "AUDUSD"
    }

    /// Each country is offered.
    pub proof fn is_listed(c: Country)
        ensures
            Country::listed().contains(c),
    {
        let s = Country::listed();
        assert(s[0] == Country::Australia && s[1] == Country::Usa && s[2] == Country::China && s[3]
            == Country::Japan && s[4] == Country::India && s[5] == Country::Uk && s[6]
            == Country::Germany && s[7] == Country::Canada && s[8] == Country::Russia && s[9]
            == Country::SouthKorea);
    }

    /// No two countries have one name.
    pub proof fn names_differ(a: Country, b: Country)
        requires
            a.called() == b.called(),
        ensures
            a == b,
    {
        reveal_strlit("Australia");
        reveal_strlit("USA");
        reveal_strlit("China");
        reveal_strlit("Japan");
        reveal_strlit("India");
        reveal_strlit("United Kingdom");
        reveal_strlit("Germany");
        reveal_strlit("Canada");
        reveal_strlit("Russia");
        reveal_strlit("South Korea");
        assert("Australia"@.len() == 9 && "USA"@.len() == 3 && "China"@.len() == 5 && "Japan"@.len() == 5 && "India"@.len() == 5 && "United Kingdom"@.len() == 14 && "Germany"@.len() == 7 && "Canada"@.len() == 6 && "Russia"@.len() == 6 && "South Korea"@.len() == 11);
        assert("China"@[0] == 'C' && "Japan"@[0] == 'J' && "India"@[0] == 'I');
        assert("Canada"@[0] == 'C' && "Russia"@[0] == 'R');
    }

    proof fn found_in(countries: Seq<Country>, c: Country)
        requires
            countries.contains(c),
        ensures
            Country::named_in(countries, c.called()) == c,
        decreases countries.len(),
    {
        if countries[0].called() == c.called() {
            Country::names_differ(countries[0], c);
        } else {
            let i = choose|i: int| 0 <= i < countries.len() && countries[i] == c;
            assert(countries.skip(1)[i - 1] == c);
            Country::found_in(countries.skip(1), c);
        }
    }

    /// A country comes back from its name.
    pub proof fn name_comes_back(c: Country)
        ensures
            Country::named(c.called()) == c,
    {
        Country::is_listed(c);
        Country::found_in(Country::listed(), c);
    }
}

} // verus!
