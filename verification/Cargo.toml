[package]
name = "platypus"
version = "0.1.0"
edition = "2021"
publish = false

[dependencies]
stillwater = "1"
email_address = "0.2"
url = "2"
uuid = "1"
phonenumber = "0.3"
iban_validate = "4"
creditcard = "0.1"

[dev-dependencies]
serde_json = "1"
