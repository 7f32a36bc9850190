pub mod ml_dsa_44;
