use vstd::prelude::*;

verus! {

/// A currency, held as its three-letter uppercase code.  The host market-data
/// system is the authority on which codes exist; this library only carries the
/// code through to the request list, so it checks the shape of the code and
/// nothing more.
#[derive(Debug, Clone, Copy, PartialEq, Eq, Structural)]
pub struct Currency {
    pub c0: char,
    pub c1: char,
    pub c2: char,
}

pub open spec fn spec_uppercase_letter(c: char) -> bool {
    'A' <= c && c <= 'Z'
}

impl Currency {
    pub open spec fn code_spec(&self) -> Seq<char> {
        seq![self.c0, self.c1, self.c2]
    }

    pub open spec fn wf(&self) -> bool {
        spec_uppercase_letter(self.c0) && spec_uppercase_letter(self.c1)
            && spec_uppercase_letter(self.c2)
    }

    /// The currency named by `code`, when `code` is exactly three uppercase
    /// ASCII letters; `None` otherwise.
    pub fn from_code(code: &Vec<char>) -> (r: Option<Currency>)
        ensures
            match r {
                Some(c) => c.wf() && c.code_spec() == code@,
                None => !(code@.len() == 3 && spec_uppercase_letter(code@[0])
                    && spec_uppercase_letter(code@[1]) && spec_uppercase_letter(code@[2])),
            },
    {
        if code.len() != 3 {
            return None;
        }
        let c0 = code[0];
        let c1 = code[1];
        let c2 = code[2];
        if c0 >= 'A' && c0 <= 'Z' && c1 >= 'A' && c1 <= 'Z' && c2 >= 'A' && c2 <= 'Z' {
            let c = Currency { c0, c1, c2 };
            proof {
                assert(c.code_spec() =~= code@);
            }
            Some(c)
        } else {
            None
        }
    }

    /// The three-letter code of this currency.
    pub fn code(&self) -> (s: String)
        ensures
            s@ == self.code_spec(),
    {
        let mut s = String::new();
        s.push(self.c0);
        s.push(self.c1);
        s.push(self.c2);
        proof {
            assert(s@ =~= self.code_spec());
        }
        s
    }
}

/// A calendar date, carried through to market requests and never computed on.
/// `empty()` is the sentinel the indexer uses when no date was configured.
#[derive(Debug, Clone, Copy, PartialEq, Eq, Structural)]
pub struct Date {
    pub year: i32,
    pub month: u32,
    pub day: u32,
}

impl Date {
    pub fn new(year: i32, month: u32, day: u32) -> (d: Date)
        ensures
            d == (Date { year, month, day }),
    {
        Date { year, month, day }
    }

    pub fn empty() -> (d: Date)
        ensures
            d == (Date { year: 0, month: 0, day: 0 }),
    {
        Date { year: 0, month: 0, day: 0 }
    }

    pub fn year(&self) -> (y: i32)
        ensures
            y == self.year,
    {
        self.year
    }

    pub fn month(&self) -> (m: u32)
        ensures
            m == self.month,
    {
        self.month
    }

    pub fn day(&self) -> (d: u32)
        ensures
            d == self.day,
    {
        self.day
    }
}

/// An exchange-rate lookup the surrounding system must resolve: quote
/// currency, optional local currency, optional reference date.
#[derive(Debug, Clone, Copy, PartialEq, Eq, Structural)]
pub struct ExchangeRateRequest {
    pub first_currency: Currency,
    pub second_currency: Option<Currency>,
    pub reference_date: Option<Date>,
}

impl ExchangeRateRequest {
    pub fn new(
        first_currency: Currency,
        second_currency: Option<Currency>,
        reference_date: Option<Date>,
    ) -> (r: ExchangeRateRequest)
        ensures
            r == (ExchangeRateRequest { first_currency, second_currency, reference_date }),
    {
        ExchangeRateRequest { first_currency, second_currency, reference_date }
    }

    pub fn first_currency(&self) -> (c: Currency)
        ensures
            c == self.first_currency,
    {
        self.first_currency
    }

    pub fn second_currency(&self) -> (c: Option<Currency>)
        ensures
            c == self.second_currency,
    {
        self.second_currency
    }

    pub fn reference_date(&self) -> (d: Option<Date>)
        ensures
            d == self.reference_date,
    {
        self.reference_date
    }
}

/// A numeraire (discount) lookup keyed by the event date it belongs to.
#[derive(Debug, Clone, Copy, PartialEq, Eq, Structural)]
pub struct NumerarieRequest {
    pub reference_date: Date,
}

impl NumerarieRequest {
    pub fn new(reference_date: Date) -> (r: NumerarieRequest)
        ensures
            r == (NumerarieRequest { reference_date }),
    {
        NumerarieRequest { reference_date }
    }

    pub fn reference_date(&self) -> (d: Date)
        ensures
            d == self.reference_date,
    {
        self.reference_date
    }
}

/// One entry of the market request list built by the indexer.  Its position in
/// the list equals `id`, and equals the slot stored into the `Spot` or `Pays`
/// node it was created for.  Exactly one of `fx` and `numerarie` is set.
#[derive(Debug, Clone, Copy, PartialEq, Eq, Structural)]
pub struct MarketRequest {
    pub id: usize,
    pub fx: Option<ExchangeRateRequest>,
    pub numerarie: Option<NumerarieRequest>,
}

impl MarketRequest {
    pub fn new(
        id: usize,
        fx: Option<ExchangeRateRequest>,
        numerarie: Option<NumerarieRequest>,
    ) -> (r: MarketRequest)
        ensures
            r == (MarketRequest { id, fx, numerarie }),
    {
        MarketRequest { id, fx, numerarie }
    }

    pub fn id(&self) -> (i: usize)
        ensures
            i == self.id,
    {
        self.id
    }

    pub fn fx(&self) -> (r: Option<ExchangeRateRequest>)
        ensures
            r == self.fx,
    {
        self.fx
    }

    pub fn numerarie(&self) -> (r: Option<NumerarieRequest>)
        ensures
            r == self.numerarie,
    {
        self.numerarie
    }
}

} // verus!
