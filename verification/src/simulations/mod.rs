pub mod carwash;
