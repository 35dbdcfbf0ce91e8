use vstd::prelude::*;

verus! {

/// Smallest year that a calendar date may carry.
pub const MIN_YEAR: i32 = -262143;

/// Largest year that a calendar date may carry.
pub const MAX_YEAR: i32 = 262142;

/// Leap years of the proleptic Gregorian calendar.
pub open spec fn is_leap_year(year: int) -> bool {
    (year % 4 == 0 && year % 100 != 0) || year % 400 == 0
}

/// Number of days in a month (1-based) of the given year.
pub open spec fn days_in_month(year: int, month: int) -> int {
    if month == 2 {
        if is_leap_year(year) { 29 } else { 28 }
    } else if month == 4 || month == 6 || month == 9 || month == 11 {
        30
    } else {
        31
    }
}

/// A year, month and day that name an existing calendar day within the supported range.
pub open spec fn is_calendar_date(year: int, month: int, day: int) -> bool {
    &&& MIN_YEAR <= year <= MAX_YEAR
    &&& 1 <= month <= 12
    &&& 1 <= day <= days_in_month(year, month)
}

/// Relies on chrono's `NaiveDate::from_ymd_opt`, which returns `None` exactly
/// when the day does not exist in the proleptic Gregorian calendar, the month
/// or day is out of range, or the year lies outside `MIN_YEAR..=MAX_YEAR`.
#[verifier::external_body]
fn calendar_date_exists(year: i32, month: u32, day: u32) -> (r: bool)
    ensures
        r == is_calendar_date(year as int, month as int, day as int),
{
    chrono::NaiveDate::from_ymd_opt(year, month, day).is_some()
}

/// A calendar date without a time of day.
#[derive(Debug, Clone, Copy, PartialEq, Eq, Structural)]
pub struct Date {
    pub year: i32,
    pub month: u32,
    pub day: u32,
}

impl Date {
    /// The fields name an existing calendar day.
    pub open spec fn wf(&self) -> bool {
        is_calendar_date(self.year as int, self.month as int, self.day as int)
    }

    /// Strict chronological order: by year, then month, then day.
    pub open spec fn spec_is_after(&self, other: Date) -> bool {
        ||| self.year > other.year
        ||| self.year == other.year && self.month > other.month
        ||| self.year == other.year && self.month == other.month && self.day > other.day
    }

    /// The date with the given year, month and day, if that day exists.
    pub fn from_ymd(year: i32, month: u32, day: u32) -> (r: Option<Date>)
        ensures
            r is Some <==> is_calendar_date(year as int, month as int, day as int),
            r matches Some(d) ==> d.year == year && d.month == month && d.day == day && d.wf(),
    {
        if calendar_date_exists(year, month, day) {
            Some(Date { year, month, day })
        } else {
            None
        }
    }

    /// Whether this date falls strictly later than `other`.
    pub fn is_after(&self, other: &Date) -> (r: bool)
        ensures
            r == self.spec_is_after(*other),
    {
        if self.year != other.year {
            self.year > other.year
        } else if self.month != other.month {
            self.month > other.month
        } else {
            self.day > other.day
        }
    }
}

/// An artist. `artist_id` is absent on a record that was not stored yet.
#[derive(Debug)]
pub struct Artist {
    pub artist_id: Option<String>,
    pub first_name: String,
    pub last_name: String,
    pub birth_year: i32,
}

impl Clone for Artist {
    fn clone(&self) -> (r: Self)
        ensures
            r == *self,
    {
        let artist_id = match &self.artist_id {
            Some(id) => Some(id.clone()),
            None => None,
        };
        Artist {
            artist_id,
            first_name: self.first_name.clone(),
            last_name: self.last_name.clone(),
            birth_year: self.birth_year,
        }
    }
}

/// A customer.
#[derive(Debug)]
pub struct Customer {
    pub customer_id: String,
    pub first_name: String,
    pub last_name: String,
    pub email: String,
    pub phone: String,
    pub address: String,
}

impl Clone for Customer {
    fn clone(&self) -> (r: Self)
        ensures
            r == *self,
    {
        Customer {
            customer_id: self.customer_id.clone(),
            first_name: self.first_name.clone(),
            last_name: self.last_name.clone(),
            email: self.email.clone(),
            phone: self.phone.clone(),
            address: self.address.clone(),
        }
    }
}

/// An artwork. Its price is a decimal amount held in hundredths of the
/// currency unit. `id_artwork` is absent on a record that was not stored yet.
#[derive(Debug)]
pub struct Artwork {
    pub id_artwork: Option<String>,
    pub title: String,
    pub description: String,
    pub year_created: i32,
    pub price_cents: i64,
    pub id_artist: String,
    pub art_type: String,
}

impl Clone for Artwork {
    fn clone(&self) -> (r: Self)
        ensures
            r == *self,
    {
        let id_artwork = match &self.id_artwork {
            Some(id) => Some(id.clone()),
            None => None,
        };
        Artwork {
            id_artwork,
            title: self.title.clone(),
            description: self.description.clone(),
            year_created: self.year_created,
            price_cents: self.price_cents,
            id_artist: self.id_artist.clone(),
            art_type: self.art_type.clone(),
        }
    }
}

/// A line item: `amount` copies of one artwork within one order.
#[derive(Debug)]
pub struct ArtworkInOrder {
    pub id_artwork_in_order: String,
    pub id_order: String,
    pub id_artwork: String,
    pub amount: i32,
}

impl Clone for ArtworkInOrder {
    fn clone(&self) -> (r: Self)
        ensures
            r == *self,
    {
        ArtworkInOrder {
            id_artwork_in_order: self.id_artwork_in_order.clone(),
            id_order: self.id_order.clone(),
            id_artwork: self.id_artwork.clone(),
            amount: self.amount,
        }
    }
}

/// An order placed by a customer on a given day.
#[derive(Debug)]
pub struct Order {
    pub id_order: String,
    pub id_customer: String,
    pub order_date: Date,
}

impl Clone for Order {
    fn clone(&self) -> (r: Self)
        ensures
            r == *self,
    {
        Order {
            id_order: self.id_order.clone(),
            id_customer: self.id_customer.clone(),
            order_date: self.order_date,
        }
    }
}

/// Relies on uuid's `Uuid::new_v4`, a random version-4 identifier, and on its
/// `Display`, which writes the hyphenated form of 36 characters.
#[verifier::external_body]
fn fresh_id() -> (r: String)
    ensures
        r@.len() == 36,
{
    uuid::Uuid::new_v4().to_string()
}

impl Artist {
    /// The same artist under the identifier `id`.
    pub fn with_id(&self, id: String) -> (r: Artist)
        ensures
            r == (Artist { artist_id: Some(id), ..*self }),
    {
        Artist {
            artist_id: Some(id),
            first_name: self.first_name.clone(),
            last_name: self.last_name.clone(),
            birth_year: self.birth_year,
        }
    }

    /// The record to store for a new artist: the given fields under a freshly
    /// generated identifier, whatever identifier the input carried.
    pub fn assign_new_id(&self) -> (r: Artist)
        ensures
            r.artist_id matches Some(id) && id@.len() == 36 && r == (Artist {
                artist_id: Some(id),
                ..*self
            }),
    {
        self.with_id(fresh_id())
    }
}

impl Customer {
    /// The same customer under the identifier `id`.
    pub fn with_id(&self, id: String) -> (r: Customer)
        ensures
            r == (Customer { customer_id: id, ..*self }),
    {
        Customer {
            customer_id: id,
            first_name: self.first_name.clone(),
            last_name: self.last_name.clone(),
            email: self.email.clone(),
            phone: self.phone.clone(),
            address: self.address.clone(),
        }
    }

    /// The record to store for a new customer, under a freshly generated identifier.
    pub fn assign_new_id(&self) -> (r: Customer)
        ensures
            r.customer_id@.len() == 36,
            r == (Customer { customer_id: r.customer_id, ..*self }),
    {
        self.with_id(fresh_id())
    }
}

impl Artwork {
    /// The same artwork under the identifier `id`.
    pub fn with_id(&self, id: String) -> (r: Artwork)
        ensures
            r == (Artwork { id_artwork: Some(id), ..*self }),
    {
        Artwork {
            id_artwork: Some(id),
            title: self.title.clone(),
            description: self.description.clone(),
            year_created: self.year_created,
            price_cents: self.price_cents,
            id_artist: self.id_artist.clone(),
            art_type: self.art_type.clone(),
        }
    }

    /// The record to store for a new artwork, under a freshly generated identifier.
    pub fn assign_new_id(&self) -> (r: Artwork)
        ensures
            r.id_artwork matches Some(id) && id@.len() == 36 && r == (Artwork {
                id_artwork: Some(id),
                ..*self
            }),
    {
        self.with_id(fresh_id())
    }
}

impl ArtworkInOrder {
    /// The same line item under the identifier `id`.
    pub fn with_id(&self, id: String) -> (r: ArtworkInOrder)
        ensures
            r == (ArtworkInOrder { id_artwork_in_order: id, ..*self }),
    {
        ArtworkInOrder {
            id_artwork_in_order: id,
            id_order: self.id_order.clone(),
            id_artwork: self.id_artwork.clone(),
            amount: self.amount,
        }
    }

    /// The record to store for a new line item, under a freshly generated identifier.
    pub fn assign_new_id(&self) -> (r: ArtworkInOrder)
        ensures
            r.id_artwork_in_order@.len() == 36,
            r == (ArtworkInOrder { id_artwork_in_order: r.id_artwork_in_order, ..*self }),
    {
        self.with_id(fresh_id())
    }
}

impl Order {
    /// The same order under the identifier `id`.
    pub fn with_id(&self, id: String) -> (r: Order)
        ensures
            r == (Order { id_order: id, ..*self }),
    {
        Order { id_order: id, id_customer: self.id_customer.clone(), order_date: self.order_date }
    }

    /// The record to store for a new order, under a freshly generated identifier.
    pub fn assign_new_id(&self) -> (r: Order)
        ensures
            r.id_order@.len() == 36,
            r == (Order { id_order: r.id_order, ..*self }),
    {
        self.with_id(fresh_id())
    }
}

} // verus!
