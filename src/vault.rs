use crate::decimal::Decimal;
use crate::error::BookingError;
use vstd::prelude::*;

verus! {

/// Units of one currency handed to or by a caller.
#[derive(Clone, Copy, Debug, PartialEq, Eq, Structural)]
pub struct Bucket {
    pub currency: u64,
    pub amount: Decimal,
}

/// Units of one currency held in escrow.
#[derive(Clone, Copy, Debug, PartialEq, Eq, Structural)]
pub struct Vault {
    pub currency: u64,
    pub amount: Decimal,
}

impl Bucket {
    pub fn new(currency: u64, amount: Decimal) -> (r: Bucket)
        ensures
            r.currency == currency,
            r.amount == amount,
    {
        Bucket { currency, amount }
    }

    /// Splits `amount` off this bucket.
    pub fn take(&mut self, amount: Decimal) -> (r: Result<Bucket, BookingError>)
        ensures
            r.is_err() <==> (amount@ < 0 || amount@ > old(self).amount@),
            r.is_err() ==> r == Err::<Bucket, BookingError>(BookingError::InsufficientFunds)
                && *final(self) == *old(self),
            r matches Ok(b) ==> b.currency == old(self).currency && b.amount == amount
                && final(self).currency == old(self).currency
                && final(self).amount@ == old(self).amount@ - amount@,
    {
        if amount.is_negative() || !amount.le(self.amount) {
            return Err(BookingError::InsufficientFunds);
        }
        self.amount = Decimal::from_attos(self.amount.attos - amount.attos);
        Ok(Bucket { currency: self.currency, amount })
    }
}

impl Vault {
    /// A vault holding what `bucket` held.
    pub fn with_bucket(bucket: Bucket) -> (r: Vault)
        ensures
            r.currency == bucket.currency,
            r.amount == bucket.amount,
    {
        Vault { currency: bucket.currency, amount: bucket.amount }
    }

    pub fn amount(&self) -> (r: Decimal)
        ensures
            r == self.amount,
    {
        self.amount
    }

    /// Moves `amount` out of the vault.
    pub fn take(&mut self, amount: Decimal) -> (r: Result<Bucket, BookingError>)
        ensures
            r.is_err() <==> (amount@ < 0 || amount@ > old(self).amount@),
            r.is_err() ==> r == Err::<Bucket, BookingError>(BookingError::InsufficientFunds)
                && *final(self) == *old(self),
            r matches Ok(b) ==> b.currency == old(self).currency && b.amount == amount
                && final(self).currency == old(self).currency
                && final(self).amount@ == old(self).amount@ - amount@,
    {
        if amount.is_negative() || !amount.le(self.amount) {
            return Err(BookingError::InsufficientFunds);
        }
        self.amount = Decimal::from_attos(self.amount.attos - amount.attos);
        Ok(Bucket { currency: self.currency, amount })
    }

    /// Empties the vault.
    pub fn take_all(&mut self) -> (r: Bucket)
        ensures
            r.currency == old(self).currency,
            r.amount == old(self).amount,
            final(self).currency == old(self).currency,
            final(self).amount@ == 0,
    {
        let b = Bucket { currency: self.currency, amount: self.amount };
        self.amount = Decimal::zero();
        b
    }
}

} // verus!
